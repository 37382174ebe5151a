//! The storage format: a collection of tasks as pretty-printed JSON
//! text, and the strict reader that turns such text back into tasks.

use vstd::prelude::*;
use vstd::assert_seqs_equal;
use crate::task::{Task, TaskView, seq_view, opt_view};
use crate::num::{dec, sp_number, format_usize_into, p_number};
use crate::num::{lemma_dec_digits, lemma_digits_val_dec, lemma_number_of_match};
use crate::jstring::{esc, sp_string_body, lemma_esc_round_trip, lemma_string_body_bounds, escape_into, p_string_body};

verus! {

/// The text that opens a non-empty collection.
pub open spec fn l_open() -> Seq<char> {
    "[\n  "@
}

/// The text between two tasks.
pub open spec fn l_sep() -> Seq<char> {
    ",\n  "@
}

/// The text that closes a non-empty collection.
pub open spec fn l_close() -> Seq<char> {
    "\n]"@
}

/// The text of an empty collection.
pub open spec fn l_empty() -> Seq<char> {
    "[]"@
}

/// The text that opens a task record, up to its id value.
pub open spec fn o_id() -> Seq<char> {
    "{\n    \"id\": "@
}

/// The text between the id value and the name value's opening quote.
pub open spec fn o_name() -> Seq<char> {
    ",\n    \"name\": \""@
}

/// The text between the name value and the description value.
pub open spec fn o_desc_sep() -> Seq<char> {
    ",\n    \"description\": "@
}

/// The text between the description value and the done value.
pub open spec fn o_done_sep() -> Seq<char> {
    ",\n    \"done\": "@
}

/// The text that closes a task record.
pub open spec fn o_end() -> Seq<char> {
    "\n  }"@
}

/// A double quote, alone.
pub open spec fn quote() -> Seq<char> {
    "\""@
}

/// The text of an optional description value.
pub open spec fn enc_desc(d: Option<Seq<char>>) -> Seq<char> {
    match d {
        Option::None => "null"@,
        Option::Some(t) => quote() + esc(t) + quote(),
    }
}

/// The text of a boolean value.
pub open spec fn enc_bool(b: bool) -> Seq<char> {
    if b {
        "true"@
    } else {
        "false"@
    }
}

/// The text of one task record.
pub open spec fn enc_obj(t: TaskView) -> Seq<char> {
    o_id() + dec(t.id) + o_name() + esc(t.name) + quote() + o_desc_sep() + enc_desc(t.description)
        + o_done_sep() + enc_bool(t.done) + o_end()
}

/// The text of the task records from position `k` on, separated by
/// `l_sep`. Defined for `k < ts.len()`.
pub open spec fn enc_list(ts: Seq<TaskView>, k: int) -> Seq<char>
    decreases ts.len() - k,
{
    if k + 1 >= ts.len() {
        enc_obj(ts[k])
    } else {
        enc_obj(ts[k]) + l_sep() + enc_list(ts, k + 1)
    }
}

/// The storage text of a whole collection.
pub open spec fn spec_encode(ts: Seq<TaskView>) -> Seq<char> {
    if ts.len() == 0 {
        l_empty()
    } else {
        l_open() + enc_list(ts, 0) + l_close()
    }
}

/// Whether the text carries `lit` at position `i`.
pub open spec fn lit_at(s: Seq<char>, i: int, lit: Seq<char>) -> bool {
    0 <= i && i + lit.len() <= s.len() && s.subrange(i, i + lit.len()) == lit
}

/// Reads an optional description value at `i`.
pub open spec fn sp_desc(s: Seq<char>, i: int) -> Option<(Option<Seq<char>>, int)> {
    if lit_at(s, i, "null"@) {
        Option::Some((Option::None, i + "null"@.len()))
    } else if 0 <= i < s.len() && s[i] == '"' {
        match sp_string_body(s, i + 1) {
            Option::Some(p) => Option::Some((Option::Some(p.0), p.1)),
            Option::None => Option::None,
        }
    } else {
        Option::None
    }
}

/// Reads a boolean value at `i`.
pub open spec fn sp_bool(s: Seq<char>, i: int) -> Option<(bool, int)> {
    if lit_at(s, i, "true"@) {
        Option::Some((true, i + "true"@.len()))
    } else if lit_at(s, i, "false"@) {
        Option::Some((false, i + "false"@.len()))
    } else {
        Option::None
    }
}

/// Reads one task record at `i`: its view and the position after it.
pub open spec fn sp_obj(s: Seq<char>, i: int) -> Option<(TaskView, int)> {
    if !lit_at(s, i, o_id()) {
        Option::None
    } else {
        match sp_number(s, i + o_id().len()) {
            Option::None => Option::None,
            Option::Some((idv, i2)) => if idv > usize::MAX {
                Option::None
            } else if !lit_at(s, i2, o_name()) {
                Option::None
            } else {
                match sp_string_body(s, i2 + o_name().len()) {
                    Option::None => Option::None,
                    Option::Some((name, i4)) => if !lit_at(s, i4, o_desc_sep()) {
                        Option::None
                    } else {
                        match sp_desc(s, i4 + o_desc_sep().len()) {
                            Option::None => Option::None,
                            Option::Some((d, i6)) => if !lit_at(s, i6, o_done_sep()) {
                                Option::None
                            } else {
                                match sp_bool(s, i6 + o_done_sep().len()) {
                                    Option::None => Option::None,
                                    Option::Some((b, i8)) => if !lit_at(s, i8, o_end()) {
                                        Option::None
                                    } else {
                                        Option::Some(
                                            (
                                                TaskView {
                                                    id: idv,
                                                    name: name,
                                                    description: d,
                                                    done: b,
                                                },
                                                i8 + o_end().len(),
                                            ),
                                        )
                                    },
                                }
                            },
                        }
                    },
                }
            },
        }
    }
}

/// A parsed description ends past where it began, inside the text.
pub proof fn lemma_desc_bounds(s: Seq<char>, i: int)
    requires
        sp_desc(s, i) is Some,
    ensures
        i < sp_desc(s, i)->Some_0.1 <= s.len(),
{
    reveal_strlit("null");
    if lit_at(s, i, "null"@) {
    } else {
        lemma_string_body_bounds(s, i + 1);
    }
}

/// A parsed boolean ends past where it began, inside the text.
pub proof fn lemma_bool_bounds(s: Seq<char>, i: int)
    requires
        sp_bool(s, i) is Some,
    ensures
        i < sp_bool(s, i)->Some_0.1 <= s.len(),
{
    reveal_strlit("true");
    reveal_strlit("false");
}

/// A parsed task record ends past where it began, inside the text.
pub proof fn lemma_obj_bounds(s: Seq<char>, i: int)
    requires
        sp_obj(s, i) is Some,
    ensures
        i < sp_obj(s, i)->Some_0.1 <= s.len(),
{
    let i1 = i + o_id().len();
    let (idv, i2) = sp_number(s, i1)->Some_0;
    crate::num::lemma_digits_end_bounds(s, i1);
    let i3 = i2 + o_name().len();
    lemma_string_body_bounds(s, i3);
    let i4 = sp_string_body(s, i3)->Some_0.1;
    let i5 = i4 + o_desc_sep().len();
    lemma_desc_bounds(s, i5);
    let i6 = sp_desc(s, i5)->Some_0.1;
    let i7 = i6 + o_done_sep().len();
    lemma_bool_bounds(s, i7);
}

/// Reads the task records from `i` on, separated by `l_sep`.
pub open spec fn sp_list(s: Seq<char>, i: int) -> Option<(Seq<TaskView>, int)>
    decreases s.len() - i,
    via sp_list_dec
{
    match sp_obj(s, i) {
        Option::None => Option::None,
        Option::Some((t, j)) => if lit_at(s, j, l_sep()) {
            match sp_list(s, j + l_sep().len()) {
                Option::None => Option::None,
                Option::Some((ts, k)) => Option::Some((seq![t] + ts, k)),
            }
        } else {
            Option::Some((seq![t], j))
        },
    }
}

#[via_fn]
proof fn sp_list_dec(s: Seq<char>, i: int) {
    if sp_obj(s, i) is Some {
        lemma_obj_bounds(s, i);
    }
}

/// Reads a whole storage text: the collection it stands for, if it is
/// well formed from start to end.
pub open spec fn sp_parse(s: Seq<char>) -> Option<Seq<TaskView>> {
    if s == l_empty() {
        Option::Some(Seq::empty())
    } else if !lit_at(s, 0, l_open()) {
        Option::None
    } else {
        match sp_list(s, l_open().len() as int) {
            Option::None => Option::None,
            Option::Some((ts, j)) => if j + l_close().len() == s.len() && lit_at(s, j, l_close()) {
                Option::Some(ts)
            } else {
                Option::None
            },
        }
    }
}

/// A task view whose id fits the machine; every task of the running
/// program satisfies this.
pub open spec fn view_ok(t: TaskView) -> bool {
    t.id <= usize::MAX
}

/// All views of a collection fit the machine.
pub open spec fn all_ok(ts: Seq<TaskView>) -> bool {
    forall|k: int| 0 <= k < ts.len() ==> view_ok(#[trigger] ts[k])
}

/// Splits a matched stretch of text into its two parts.
proof fn lemma_split(s: Seq<char>, i: int, a: Seq<char>, b: Seq<char>)
    requires
        0 <= i,
        i + a.len() + b.len() <= s.len(),
        s.subrange(i, i + a.len() + b.len()) == a + b,
    ensures
        s.subrange(i, i + a.len()) == a,
        s.subrange(i + a.len(), i + a.len() + b.len()) == b,
{
    let w = s.subrange(i, i + a.len() + b.len());
    assert_seqs_equal!(s.subrange(i, i + a.len()) == a, t => {
        assert(w[t] == s[i + t]);
        assert(s.subrange(i, i + a.len())[t] == s[i + t]);
        assert(w[t] == (a + b)[t]);
    });
    assert_seqs_equal!(s.subrange(i + a.len(), i + a.len() + b.len()) == b, t => {
        assert(w[a.len() + t] == s[i + (a.len() + t)]);
        assert(s.subrange(i + a.len(), i + a.len() + b.len())[t] == s[i + a.len() + t]);
        assert(w[a.len() + t] == (a + b)[a.len() + t]);
    });
}

/// Where the text at `i` spells out the record of task view `t`, the
/// record read there is exactly `t`.
pub proof fn lemma_obj_round_trip(s: Seq<char>, i: int, t: TaskView)
    requires
        0 <= i,
        view_ok(t),
        i + enc_obj(t).len() <= s.len(),
        s.subrange(i, i + enc_obj(t).len()) == enc_obj(t),
    ensures
        sp_obj(s, i) == Option::Some((t, i + enc_obj(t).len())),
{
    reveal_strlit(",\n    \"name\": \"");
    reveal_strlit("\"");
    reveal_strlit("null");
    reveal_strlit("true");
    reveal_strlit("false");
    let a1 = o_id();
    let a2 = dec(t.id);
    let a3 = o_name();
    let a4 = esc(t.name);
    let a5 = quote();
    let a6 = o_desc_sep();
    let a7 = enc_desc(t.description);
    let a8 = o_done_sep();
    let a9 = enc_bool(t.done);
    let a10 = o_end();
    let x2 = a1 + a2;
    let x3 = x2 + a3;
    let x4 = x3 + a4;
    let x5 = x4 + a5;
    let x6 = x5 + a6;
    let x7 = x6 + a7;
    let x8 = x7 + a8;
    let x9 = x8 + a9;
    assert(enc_obj(t) == x9 + a10);
    lemma_split(s, i, x9, a10);
    lemma_split(s, i, x8, a9);
    lemma_split(s, i, x7, a8);
    lemma_split(s, i, x6, a7);
    lemma_split(s, i, x5, a6);
    lemma_split(s, i, x4, a5);
    lemma_split(s, i, x3, a4);
    lemma_split(s, i, x2, a3);
    lemma_split(s, i, a1, a2);
    let p1 = i + a1.len();
    let p2 = p1 + a2.len();
    let p3 = p2 + a3.len();
    let p4 = p3 + a4.len();
    let p5 = p4 + a5.len();
    let p6 = p5 + a6.len();
    let p7 = p6 + a7.len();
    let p8 = p7 + a8.len();
    let p9 = p8 + a9.len();
    let p10 = p9 + a10.len();
    // The id numeral, ended by the comma that opens the name field.
    assert(s[p2] == ',') by {
        assert(s.subrange(p2, p2 + a3.len())[0] == s[p2 + 0]);
    }
    lemma_dec_digits(t.id);
    lemma_digits_val_dec(t.id);
    lemma_number_of_match(s, p1, a2);
    // The name body, ended by its closing quote.
    assert(s[p4] == '"') by {
        assert(s.subrange(p4, p4 + a5.len())[0] == s[p4 + 0]);
    }
    lemma_esc_round_trip(s, p3, t.name);
    // The description value.
    match t.description {
        Option::None => {
            assert(lit_at(s, p6, "null"@));
        },
        Option::Some(d) => {
            lemma_split(s, p6, a5 + esc(d), a5);
            lemma_split(s, p6, a5, esc(d));
            assert(s[p6] == '"') by {
                assert(s.subrange(p6, p6 + a5.len())[0] == s[p6 + 0]);
            }
            if lit_at(s, p6, "null"@) {
                assert(s.subrange(p6, p6 + "null"@.len())[0] == s[p6 + 0]);
                assert(false);
            }
            let q2 = p6 + 1 + esc(d).len();
            assert(s[q2] == '"') by {
                assert(s.subrange(q2, q2 + a5.len())[0] == s[q2 + 0]);
            }
            lemma_esc_round_trip(s, p6 + 1, d);
            assert(sp_desc(s, p6) == Option::Some((Option::Some(d), p7)));
        },
    }
    // The done value.
    if t.done {
        assert(lit_at(s, p8, "true"@));
    } else {
        if lit_at(s, p8, "true"@) {
            assert(s.subrange(p8, p8 + "true"@.len())[0] == s[p8 + 0]);
            assert(s.subrange(p8, p8 + a9.len())[0] == s[p8 + 0]);
            assert(false);
        }
        assert(lit_at(s, p8, "false"@));
    }
    assert(sp_bool(s, p8) == Option::Some((t.done, p9)));
    assert(t == TaskView { id: t.id, name: t.name, description: t.description, done: t.done });
}

/// Where the text at `i` spells out the records of the tasks from `k`
/// on and a line break follows, the record list read there is exactly
/// those tasks.
pub proof fn lemma_list_round_trip(s: Seq<char>, i: int, ts: Seq<TaskView>, k: int)
    requires
        0 <= i,
        0 <= k < ts.len(),
        all_ok(ts),
        i + enc_list(ts, k).len() < s.len(),
        s.subrange(i, i + enc_list(ts, k).len()) == enc_list(ts, k),
        s[i + enc_list(ts, k).len()] == '\n',
    ensures
        sp_list(s, i) == Option::Some((ts.skip(k), i + enc_list(ts, k).len())),
    decreases ts.len() - k,
{
    reveal_strlit(",\n  ");
    assert(view_ok(ts[k]));
    if k + 1 >= ts.len() {
        lemma_obj_round_trip(s, i, ts[k]);
        let j = i + enc_obj(ts[k]).len();
        if lit_at(s, j, l_sep()) {
            assert(s.subrange(j, j + l_sep().len())[0] == s[j + 0]);
            assert(false);
        }
        assert(seq![ts[k]] =~= ts.skip(k));
    } else {
        lemma_split(s, i, enc_obj(ts[k]) + l_sep(), enc_list(ts, k + 1));
        lemma_split(s, i, enc_obj(ts[k]), l_sep());
        lemma_obj_round_trip(s, i, ts[k]);
        let j = i + enc_obj(ts[k]).len();
        assert(lit_at(s, j, l_sep()));
        let i2 = j + l_sep().len();
        lemma_list_round_trip(s, i2, ts, k + 1);
        assert(seq![ts[k]] + ts.skip(k + 1) =~= ts.skip(k));
    }
}

/// The storage round trip: the text written for a collection reads back
/// as exactly that collection, in order. Ids fit the machine on any
/// collection the program can hold.
pub proof fn lemma_store_round_trip(ts: Seq<TaskView>)
    requires
        all_ok(ts),
    ensures
        sp_parse(spec_encode(ts)) == Option::Some(ts),
{
    reveal_strlit("[]");
    reveal_strlit("[\n  ");
    reveal_strlit("\n]");
    if ts.len() == 0 {
        assert(ts =~= Seq::<TaskView>::empty());
    } else {
        let s = spec_encode(ts);
        assert(s == (l_open() + enc_list(ts, 0)) + l_close());
        assert(s.subrange(0, s.len() as int) =~= s);
        lemma_split(s, 0, l_open() + enc_list(ts, 0), l_close());
        lemma_split(s, 0, l_open(), enc_list(ts, 0));
        assert(s.len() >= 6);
        assert(s != l_empty());
        let i0 = l_open().len() as int;
        let j = i0 + enc_list(ts, 0).len();
        assert(s[j] == '\n') by {
            assert(s.subrange(j, j + l_close().len())[0] == s[j + 0]);
        }
        lemma_list_round_trip(s, i0, ts, 0);
        assert(ts.skip(0) =~= ts);
        assert(lit_at(s, j, l_close()));
        assert(j + l_close().len() == s.len());
    }
}

/// Every collection the running program can hold satisfies `all_ok`:
/// each stored id is a machine integer.
pub proof fn lemma_seq_view_ok(ts: Seq<Task>)
    ensures
        all_ok(seq_view(ts)),
{
    assert forall|k: int| 0 <= k < seq_view(ts).len() implies view_ok(
        #[trigger] seq_view(ts)[k],
    ) by {
        assert(seq_view(ts)[k] == ts[k]@);
    }
}

/// Appends the record of one task to `out`.
fn enc_obj_into(out: &mut String, t: &Task)
    ensures
        final(out)@ == old(out)@ + enc_obj(t@),
{
    out.append("{\n    \"id\": ");
    format_usize_into(out, t.id);
    out.append(",\n    \"name\": \"");
    escape_into(out, t.name.as_str());
    out.append("\",\n    \"description\": ");
    match &t.description {
        Option::Some(d) => {
            out.append("\"");
            escape_into(out, d.as_str());
            out.append("\"");
        },
        Option::None => {
            out.append("null");
        },
    }
    out.append(",\n    \"done\": ");
    if t.done {
        out.append("true");
    } else {
        out.append("false");
    }
    out.append("\n  }");
    proof {
        reveal_strlit(",\n    \"name\": \"");
        reveal_strlit("\",\n    \"description\": ");
        reveal_strlit("\"");
        reveal_strlit(",\n    \"description\": ");
        assert("\",\n    \"description\": "@ =~= quote() + o_desc_sep());
        assert(out@ =~= old(out)@ + enc_obj(t@));
    }
}

/// Appends the records of the tasks from position `k` on to `out`.
fn enc_list_into(out: &mut String, tasks: &Vec<Task>, k: usize)
    requires
        k < tasks@.len(),
    ensures
        final(out)@ == old(out)@ + enc_list(seq_view(tasks@), k as int),
    decreases tasks@.len() - k,
{
    let n = tasks.len();
    enc_obj_into(out, &tasks[k]);
    proof {
        assert(seq_view(tasks@)[k as int] == tasks@[k as int]@);
    }
    if k + 1 < n {
        out.append(",\n  ");
        enc_list_into(out, tasks, k + 1);
        proof {
            assert(out@ =~= old(out)@ + enc_list(seq_view(tasks@), k as int));
        }
    } else {
        proof {
            assert(out@ =~= old(out)@ + enc_list(seq_view(tasks@), k as int));
        }
    }
}

/// The storage text of the whole collection.
pub fn encode_tasks(tasks: &Vec<Task>) -> (r: String)
    ensures
        r@ == spec_encode(seq_view(tasks@)),
{
    let mut out = String::new();
    if tasks.len() == 0 {
        out.append("[]");
        proof {
            assert(out@ =~= spec_encode(seq_view(tasks@)));
        }
    } else {
        out.append("[\n  ");
        enc_list_into(&mut out, tasks, 0);
        out.append("\n]");
        proof {
            assert(out@ =~= spec_encode(seq_view(tasks@)));
        }
    }
    out
}

/// Whether the text carries `lit` at position `i`.
fn match_lit(s: &str, len: usize, i: usize, lit: &str) -> (b: bool)
    requires
        len == s@.len(),
        i <= len,
    ensures
        b == lit_at(s@, i as int, lit@),
{
    let n = lit.unicode_len();
    if len - i < n {
        return false;
    }
    let mut t: usize = 0;
    while t < n
        invariant
            len == s@.len(),
            n == lit@.len(),
            i + n <= len,
            t <= n,
            forall|u: int| 0 <= u < t ==> s@[i + u] == #[trigger] lit@[u],
        decreases n - t,
    {
        if s.get_char(i + t) != lit.get_char(t) {
            proof {
                if lit_at(s@, i as int, lit@) {
                    assert(s@.subrange(i as int, i as int + lit@.len())[t as int] == s@[i as int
                        + t as int]);
                }
            }
            return false;
        }
        t = t + 1;
    }
    proof {
        assert(s@.subrange(i as int, i as int + lit@.len()) =~= lit@);
    }
    true
}

/// Reads one task record at `i`.
pub fn p_obj(s: &str, len: usize, i: usize) -> (r: Option<(Task, usize)>)
    requires
        len == s@.len(),
        i <= len,
    ensures
        match r {
            Option::Some(p) => sp_obj(s@, i as int) == Option::Some((p.0@, p.1 as int)) && i < p.1
                <= len,
            Option::None => sp_obj(s@, i as int) is None,
        },
{
    let lit_id = "{\n    \"id\": ";
    if !match_lit(s, len, i, lit_id) {
        return None;
    }
    let i1 = i + lit_id.unicode_len();
    let (idv, i2) = match p_number(s, len, i1) {
        Option::Some(p) => p,
        Option::None => {
            return None;
        },
    };
    let lit_name = ",\n    \"name\": \"";
    if !match_lit(s, len, i2, lit_name) {
        return None;
    }
    let i3 = i2 + lit_name.unicode_len();
    let (name, i4) = match p_string_body(s, len, i3) {
        Option::Some(p) => p,
        Option::None => {
            return None;
        },
    };
    let lit_desc = ",\n    \"description\": ";
    if !match_lit(s, len, i4, lit_desc) {
        return None;
    }
    let i5 = i4 + lit_desc.unicode_len();
    let lit_null = "null";
    let (descr, i6): (Option<String>, usize) = if match_lit(s, len, i5, lit_null) {
        (None, i5 + lit_null.unicode_len())
    } else if i5 < len && s.get_char(i5) == '"' {
        match p_string_body(s, len, i5 + 1) {
            Option::Some(p) => (Some(p.0), p.1),
            Option::None => {
                return None;
            },
        }
    } else {
        return None;
    };
    proof {
        assert(sp_desc(s@, i5 as int) == Option::Some((opt_view(descr), i6 as int)));
    }
    let lit_done = ",\n    \"done\": ";
    if !match_lit(s, len, i6, lit_done) {
        return None;
    }
    let i7 = i6 + lit_done.unicode_len();
    let lit_true = "true";
    let lit_false = "false";
    let (done, i8) = if match_lit(s, len, i7, lit_true) {
        (true, i7 + lit_true.unicode_len())
    } else if match_lit(s, len, i7, lit_false) {
        (false, i7 + lit_false.unicode_len())
    } else {
        return None;
    };
    let lit_end = "\n  }";
    if !match_lit(s, len, i8, lit_end) {
        return None;
    }
    let j = i8 + lit_end.unicode_len();
    let task = Task { id: idv, name, description: descr, done };
    Some((task, j))
}

/// Reads the task records from `i` on, separated by `l_sep`.
pub fn p_list(s: &str, len: usize, i: usize) -> (r: Option<(Vec<Task>, usize)>)
    requires
        len == s@.len(),
        i <= len,
    ensures
        match r {
            Option::Some(p) => sp_list(s@, i as int) == Option::Some(
                (seq_view(p.0@), p.1 as int),
            ) && i < p.1 <= len,
            Option::None => sp_list(s@, i as int) is None,
        },
    decreases len - i,
{
    let (t, j) = match p_obj(s, len, i) {
        Option::Some(p) => p,
        Option::None => {
            return None;
        },
    };
    let ghost tv = t@;
    let lit_sep = ",\n  ";
    if match_lit(s, len, j, lit_sep) {
        let j2 = j + lit_sep.unicode_len();
        match p_list(s, len, j2) {
            Option::Some((ts, k)) => {
                let ghost tsv = ts@;
                let mut out: Vec<Task> = Vec::new();
                out.push(t);
                let mut rest = ts;
                out.append(&mut rest);
                proof {
                    assert(out@ =~= seq![out@[0]] + tsv);
                    assert(seq_view(out@) =~= seq![tv] + seq_view(tsv));
                }
                Some((out, k))
            },
            Option::None => None,
        }
    } else {
        let mut out: Vec<Task> = Vec::new();
        out.push(t);
        proof {
            assert(seq_view(out@) =~= seq![tv]);
        }
        Some((out, j))
    }
}

/// Reads a whole storage text.
pub fn parse_tasks(s: &str) -> (r: Option<Vec<Task>>)
    ensures
        match r {
            Option::Some(v) => sp_parse(s@) == Option::Some(seq_view(v@)),
            Option::None => sp_parse(s@) is None,
        },
{
    let len = s.unicode_len();
    proof {
        reveal_strlit("[]");
        reveal_strlit("[\n  ");
        reveal_strlit("\n]");
    }
    if len == 2 && match_lit(s, len, 0, "[]") {
        proof {
            assert(s@ =~= l_empty());
            assert(seq_view(Seq::<Task>::empty()) =~= Seq::<TaskView>::empty());
        }
        return Some(Vec::new());
    }
    proof {
        if s@ == l_empty() {
            assert(s@.subrange(0, 2) =~= l_empty());
        }
    }
    let lit_open = "[\n  ";
    if !match_lit(s, len, 0, lit_open) {
        return None;
    }
    let i0 = lit_open.unicode_len();
    match p_list(s, len, i0) {
        Option::Some((ts, j)) => {
            if len - j == 2 && match_lit(s, len, j, "\n]") {
                Some(ts)
            } else {
                None
            }
        },
        Option::None => None,
    }
}

/// The collection a storage text stands for: what it reads as, or the
/// empty collection where it is absent in form or malformed.
pub fn load_from_text(s: &str) -> (r: Vec<Task>)
    ensures
        seq_view(r@) == match sp_parse(s@) {
            Option::Some(ts) => ts,
            Option::None => Seq::<TaskView>::empty(),
        },
{
    match parse_tasks(s) {
        Option::Some(v) => v,
        Option::None => {
            let r: Vec<Task> = Vec::new();
            proof {
                assert(seq_view(r@) =~= Seq::<TaskView>::empty());
            }
            r
        },
    }
}

} // verus!
