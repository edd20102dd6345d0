//! A structured value, as found in the kind-specific configuration of a
//! template resource: the shape of a JSON document, with integers for its
//! numbers.
//!
//! Besides the value type itself, this module provides its one text-level
//! primitive: flattening a value to a single line of text, as used by the
//! heuristic reference detector (`contains` over the flattened form).

use vstd::prelude::*;

verus! {

/// An arbitrary nested configuration value.
#[derive(Debug, PartialEq)]
pub enum JsonValue {
    Null,
    Bool(bool),
    Int(i64),
    Str(String),
    Array(Vec<JsonValue>),
    Object(Vec<(String, JsonValue)>),
}

/// The mathematical shape of a `JsonValue`: strings become character
/// sequences, vectors become sequences.
pub enum JsonView {
    Null,
    Bool(bool),
    Int(int),
    Str(Seq<char>),
    Array(Seq<JsonView>),
    Object(Seq<(Seq<char>, JsonView)>),
}

pub open spec fn json_view(v: JsonValue) -> JsonView
    decreases v,
{
    match v {
        JsonValue::Null => JsonView::Null,
        JsonValue::Bool(b) => JsonView::Bool(b),
        JsonValue::Int(i) => JsonView::Int(i as int),
        JsonValue::Str(s) => JsonView::Str(s@),
        JsonValue::Array(items) => JsonView::Array(json_view_seq(items@)),
        JsonValue::Object(entries) => JsonView::Object(json_view_entries(entries@)),
    }
}

pub open spec fn json_view_seq(s: Seq<JsonValue>) -> Seq<JsonView>
    decreases s,
{
    if s.len() == 0 {
        Seq::empty()
    } else {
        json_view_seq(s.drop_last()).push(json_view(s.last()))
    }
}

pub open spec fn json_view_entries(s: Seq<(String, JsonValue)>) -> Seq<(Seq<char>, JsonView)>
    decreases s,
{
    if s.len() == 0 {
        Seq::empty()
    } else {
        json_view_entries(s.drop_last()).push((s.last().0@, json_view(s.last().1)))
    }
}

impl View for JsonValue {
    type V = JsonView;

    open spec fn view(&self) -> JsonView {
        json_view(*self)
    }
}

pub proof fn lemma_json_view_seq(s: Seq<JsonValue>)
    ensures
        json_view_seq(s).len() == s.len(),
        forall|i: int| 0 <= i < s.len() ==> json_view_seq(s)[i] == json_view(s[i]),
    decreases s,
{
    if s.len() > 0 {
        lemma_json_view_seq(s.drop_last());
    }
}

pub proof fn lemma_json_view_entries(s: Seq<(String, JsonValue)>)
    ensures
        json_view_entries(s).len() == s.len(),
        forall|i: int| 0 <= i < s.len() ==> json_view_entries(s)[i] == (s[i].0@, json_view(
            s[i].1,
        )),
    decreases s,
{
    if s.len() > 0 {
        lemma_json_view_entries(s.drop_last());
    }
}

impl Clone for JsonValue {
    /// A deep copy with the same mathematical shape.
    fn clone(&self) -> (res: Self)
        ensures
            res@ == self@,
        decreases *self,
    {
        match self {
            JsonValue::Null => JsonValue::Null,
            JsonValue::Bool(b) => JsonValue::Bool(*b),
            JsonValue::Int(i) => JsonValue::Int(*i),
            JsonValue::Str(s) => JsonValue::Str(s.clone()),
            JsonValue::Array(items) => JsonValue::Array(clone_values(items)),
            JsonValue::Object(entries) => JsonValue::Object(clone_entries(entries)),
        }
    }
}

fn clone_values(items: &Vec<JsonValue>) -> (res: Vec<JsonValue>)
    ensures
        json_view_seq(res@) == json_view_seq(items@),
    decreases *items,
{
    let mut res: Vec<JsonValue> = Vec::new();
    let mut i: usize = 0;
    while i < items.len()
        invariant
            i <= items@.len(),
            json_view_seq(res@) == json_view_seq(items@.take(i as int)),
        decreases items@.len() - i,
    {
        let c = items[i].clone();
        proof {
            assert(res@.push(c).drop_last() =~= res@);
            assert(items@.take(i + 1).drop_last() =~= items@.take(i as int));
            assert(items@.take(i + 1).last() == items@[i as int]);
        }
        res.push(c);
        i = i + 1;
    }
    proof {
        assert(items@.take(items@.len() as int) =~= items@);
    }
    res
}

fn clone_entries(entries: &Vec<(String, JsonValue)>) -> (res: Vec<(String, JsonValue)>)
    ensures
        json_view_entries(res@) == json_view_entries(entries@),
    decreases *entries,
{
    let mut res: Vec<(String, JsonValue)> = Vec::new();
    let mut i: usize = 0;
    while i < entries.len()
        invariant
            i <= entries@.len(),
            json_view_entries(res@) == json_view_entries(entries@.take(i as int)),
        decreases entries@.len() - i,
    {
        let e = (entries[i].0.clone(), entries[i].1.clone());
        proof {
            assert(res@.push(e).drop_last() =~= res@);
            assert(entries@.take(i + 1).drop_last() =~= entries@.take(i as int));
            assert(entries@.take(i + 1).last() == entries@[i as int]);
        }
        res.push(e);
        i = i + 1;
    }
    proof {
        assert(entries@.take(entries@.len() as int) =~= entries@);
    }
    res
}

/// The value under the first entry of `entries` whose key is `key`, if any.
pub open spec fn obj_lookup(entries: Seq<(Seq<char>, JsonView)>, key: Seq<char>) -> Option<
    JsonView,
>
    decreases entries,
{
    if entries.len() == 0 {
        None
    } else if entries.first().0 == key {
        Some(entries.first().1)
    } else {
        obj_lookup(entries.drop_first(), key)
    }
}

impl JsonView {
    /// The value under `key` when this value is an object holding it.
    pub open spec fn get(self, key: Seq<char>) -> Option<JsonView> {
        match self {
            JsonView::Object(entries) => obj_lookup(entries, key),
            _ => None,
        }
    }
}

proof fn lemma_obj_lookup_at(s: Seq<(Seq<char>, JsonView)>, key: Seq<char>, i: int)
    requires
        0 <= i < s.len(),
        forall|t: int| 0 <= t < i ==> s[t].0 != key,
        s[i].0 == key,
    ensures
        obj_lookup(s, key) == Some(s[i].1),
    decreases i,
{
    if i > 0 {
        lemma_obj_lookup_at(s.drop_first(), key, i - 1);
    }
}

proof fn lemma_obj_lookup_none(s: Seq<(Seq<char>, JsonView)>, key: Seq<char>)
    requires
        forall|t: int| 0 <= t < s.len() ==> s[t].0 != key,
    ensures
        obj_lookup(s, key) is None,
    decreases s,
{
    if s.len() > 0 {
        lemma_obj_lookup_none(s.drop_first(), key);
    }
}

impl JsonValue {
    /// The value stored under `key` when this value is an object with such an
    /// entry; `None` for any other shape.
    pub fn get<'a>(&'a self, key: &str) -> (r: Option<&'a JsonValue>)
        ensures
            match r {
                Some(x) => self@.get(key@) == Some(x@),
                None => self@.get(key@) is None,
            },
    {
        match self {
            JsonValue::Object(entries) => {
                proof {
                    lemma_json_view_entries(entries@);
                }
                let ghost ev = json_view_entries(entries@);
                let mut i: usize = 0;
                while i < entries.len()
                    invariant
                        i <= entries@.len(),
                        self@ == JsonView::Object(ev),
                        ev == json_view_entries(entries@),
                        ev.len() == entries@.len(),
                        forall|k: int| 0 <= k < entries@.len() ==> ev[k] == (
                            entries@[k].0@,
                            json_view(entries@[k].1),
                        ),
                        forall|t: int| 0 <= t < i ==> ev[t].0 != key@,
                    decreases entries@.len() - i,
                {
                    if crate::text::str_eq(entries[i].0.as_str(), key) {
                        proof {
                            assert(ev[i as int] == (
                                entries@[i as int].0@,
                                json_view(entries@[i as int].1),
                            ));
                            lemma_obj_lookup_at(ev, key@, i as int);
                        }
                        return Some(&entries[i].1);
                    }
                    i = i + 1;
                }
                proof {
                    lemma_obj_lookup_none(ev, key@);
                }
                None
            },
            _ => None,
        }
    }
}

/// One decimal digit as text.
pub open spec fn digit_text(d: int) -> Seq<char> {
    if d == 0 {
        "0"@
    } else if d == 1 {
        "1"@
    } else if d == 2 {
        "2"@
    } else if d == 3 {
        "3"@
    } else if d == 4 {
        "4"@
    } else if d == 5 {
        "5"@
    } else if d == 6 {
        "6"@
    } else if d == 7 {
        "7"@
    } else if d == 8 {
        "8"@
    } else {
        "9"@
    }
}

/// The decimal text of a non-negative integer.
pub open spec fn dec_text(n: int) -> Seq<char>
    recommends
        n >= 0,
    decreases n,
{
    if n < 10 {
        digit_text(n)
    } else {
        dec_text(n / 10) + digit_text(n % 10)
    }
}

/// The decimal text of an integer, with a leading minus sign when negative.
pub open spec fn int_text(i: int) -> Seq<char> {
    if i < 0 {
        "-"@ + dec_text(-i)
    } else {
        dec_text(i)
    }
}

/// The flattened one-line text of a value: the shape of a compact JSON
/// document. String contents are flattened verbatim, between quotes; this
/// text exists to be searched, not to be parsed back.
pub open spec fn flat_text(v: JsonView) -> Seq<char>
    decreases v,
{
    match v {
        JsonView::Null => "null"@,
        JsonView::Bool(b) => if b {
            "true"@
        } else {
            "false"@
        },
        JsonView::Int(i) => int_text(i),
        JsonView::Str(s) => "\""@ + s + "\""@,
        JsonView::Array(items) => "["@ + flat_items(items) + "]"@,
        JsonView::Object(entries) => "{"@ + flat_entries(entries) + "}"@,
    }
}

/// Comma-separated flattened array elements.
pub open spec fn flat_items(items: Seq<JsonView>) -> Seq<char>
    decreases items,
{
    if items.len() == 0 {
        Seq::empty()
    } else if items.len() == 1 {
        flat_text(items[0])
    } else {
        flat_items(items.drop_last()) + ","@ + flat_text(items.last())
    }
}

/// Comma-separated flattened object entries, each a quoted key, a colon and
/// the flattened value.
pub open spec fn flat_entries(entries: Seq<(Seq<char>, JsonView)>) -> Seq<char>
    decreases entries,
{
    if entries.len() == 0 {
        Seq::empty()
    } else if entries.len() == 1 {
        flat_entry(entries[0])
    } else {
        flat_entries(entries.drop_last()) + ","@ + flat_entry(entries.last())
    }
}

pub open spec fn flat_entry(entry: (Seq<char>, JsonView)) -> Seq<char>
    decreases entry,
{
    "\""@ + entry.0 + "\""@ + ":"@ + flat_text(entry.1)
}

fn digit_str(d: u64) -> (r: &'static str)
    requires
        d < 10,
    ensures
        r@ == digit_text(d as int),
{
    match d {
        0 => "0",
        1 => "1",
        2 => "2",
        3 => "3",
        4 => "4",
        5 => "5",
        6 => "6",
        7 => "7",
        8 => "8",
        _ => "9",
    }
}

fn append_dec(n: u64, out: &mut String)
    ensures
        final(out)@ == old(out)@ + dec_text(n as int),
    decreases n,
{
    if n < 10 {
        out.append(digit_str(n));
    } else {
        append_dec(n / 10, out);
        out.append(digit_str(n % 10));
        proof {
            assert(old(out)@ + dec_text((n / 10) as int) + digit_text((n % 10) as int) =~= old(
                out,
            )@ + dec_text(n as int));
        }
    }
}

fn append_int(i: i64, out: &mut String)
    ensures
        final(out)@ == old(out)@ + int_text(i as int),
{
    if i >= 0 {
        append_dec(i as u64, out);
    } else {
        out.append("-");
        let m: u64 = ((-(i + 1)) as u64) + 1;
        proof {
            assert(m as int == -(i as int));
        }
        append_dec(m, out);
        proof {
            assert(old(out)@ + "-"@ + dec_text(m as int) =~= old(out)@ + int_text(i as int));
        }
    }
}

impl JsonValue {
    /// The flattened one-line text of this value, used for the substring-based
    /// reference heuristic.
    pub fn to_text(&self) -> (r: String)
        ensures
            r@ == flat_text(self@),
    {
        let mut out = String::new();
        append_flat(self, &mut out);
        out
    }
}

fn append_flat(v: &JsonValue, out: &mut String)
    ensures
        final(out)@ == old(out)@ + flat_text(v@),
    decreases *v,
{
    match v {
        JsonValue::Null => out.append("null"),
        JsonValue::Bool(b) => if *b {
            out.append("true")
        } else {
            out.append("false")
        },
        JsonValue::Int(i) => append_int(*i, out),
        JsonValue::Str(s) => {
            out.append("\"");
            out.append(s.as_str());
            out.append("\"");
            proof {
                assert(old(out)@ + "\""@ + s@ + "\""@ =~= old(out)@ + flat_text(v@));
            }
        },
        JsonValue::Array(items) => {
            out.append("[");
            append_flat_items(items, out);
            out.append("]");
            proof {
                assert(old(out)@ + "["@ + flat_items(json_view_seq(items@)) + "]"@ =~= old(out)@
                    + flat_text(v@));
            }
        },
        JsonValue::Object(entries) => {
            out.append("{");
            append_flat_entries(entries, out);
            out.append("}");
            proof {
                assert(old(out)@ + "{"@ + flat_entries(json_view_entries(entries@)) + "}"@ =~= old(
                    out,
                )@ + flat_text(v@));
            }
        },
    }
}

fn append_flat_items(items: &Vec<JsonValue>, out: &mut String)
    ensures
        final(out)@ == old(out)@ + flat_items(json_view_seq(items@)),
    decreases *items,
{
    let ghost views = json_view_seq(items@);
    proof {
        lemma_json_view_seq(items@);
    }
    let mut i: usize = 0;
    while i < items.len()
        invariant
            i <= items@.len(),
            views == json_view_seq(items@),
            views.len() == items@.len(),
            forall|k: int| 0 <= k < items@.len() ==> views[k] == json_view(items@[k]),
            out@ == old(out)@ + flat_items(views.take(i as int)),
        decreases items@.len() - i,
    {
        if i > 0 {
            out.append(",");
        }
        append_flat(&items[i], out);
        proof {
            assert(views.take(i + 1).drop_last() =~= views.take(i as int));
            assert(views.take(i + 1).last() == views[i as int]);
            assert(out@ =~= old(out)@ + flat_items(views.take(i + 1)));
        }
        i = i + 1;
    }
    proof {
        assert(views.take(views.len() as int) =~= views);
    }
}

fn append_flat_entries(entries: &Vec<(String, JsonValue)>, out: &mut String)
    ensures
        final(out)@ == old(out)@ + flat_entries(json_view_entries(entries@)),
    decreases *entries,
{
    let ghost views = json_view_entries(entries@);
    proof {
        lemma_json_view_entries(entries@);
    }
    let mut i: usize = 0;
    while i < entries.len()
        invariant
            i <= entries@.len(),
            views == json_view_entries(entries@),
            views.len() == entries@.len(),
            forall|k: int| 0 <= k < entries@.len() ==> views[k] == (
                entries@[k].0@,
                json_view(entries@[k].1),
            ),
            out@ == old(out)@ + flat_entries(views.take(i as int)),
        decreases entries@.len() - i,
    {
        let ghost at_start = out@;
        if i > 0 {
            out.append(",");
        }
        out.append("\"");
        out.append(entries[i].0.as_str());
        out.append("\"");
        out.append(":");
        append_flat(&entries[i].1, out);
        proof {
            assert(views.take(i + 1).drop_last() =~= views.take(i as int));
            assert(views.take(i + 1).last() == views[i as int]);
            assert(flat_entry(views[i as int]) == "\""@ + entries@[i as int].0@ + "\""@ + ":"@
                + flat_text(json_view(entries@[i as int].1)));
            if i == 0 {
                assert(out@ =~= at_start + flat_entry(views[i as int]));
                assert(flat_entries(views.take(1)) == flat_entry(views[0]));
                assert(at_start =~= old(out)@);
            } else {
                assert(out@ =~= at_start + ","@ + flat_entry(views[i as int]));
                assert(flat_entries(views.take(i + 1)) == flat_entries(views.take(i as int)) + ","@
                    + flat_entry(views[i as int]));
            }
            assert(out@ =~= old(out)@ + flat_entries(views.take(i + 1)));
        }
        i = i + 1;
    }
    proof {
        assert(views.take(views.len() as int) =~= views);
    }
}

} // verus!
