//! Errors and text rendering: key/value tables, column tables and s-expressions.
use vstd::prelude::*;

use vstd::utf8::encode_utf8;

use crate::text::{chars_of, owned as owned_text, push_char, push_str, str_eq};

verus! {

/// An error the command line reports with a code, a message and an optional hint.
#[derive(Debug)]
pub struct AppError {
    pub code: &'static str,
    pub message: String,
    pub hint: Option<String>,
}

/// What an `AppError` holds, as texts.
pub struct AppErrorV {
    pub code: Seq<char>,
    pub message: Seq<char>,
    pub hint: Option<Seq<char>>,
}

impl View for AppError {
    type V = AppErrorV;

    open spec fn view(&self) -> AppErrorV {
        AppErrorV { code: self.code@, message: self.message@, hint: self.hint.deep_view() }
    }
}

/// An error with the given code and message and no hint.
pub open spec fn err_v(code: Seq<char>, message: Seq<char>) -> AppErrorV {
    AppErrorV { code, message, hint: None }
}

impl AppError {
    /// An error with a code and a message.
    pub fn new(code: &'static str, message: String) -> (e: AppError)
        ensures
            e.code == code,
            e.message == message,
            e.hint is None,
            e@ == err_v(code@, message@),
    {
        AppError { code, message, hint: None }
    }

    /// The same error with a hint attached.
    pub fn hint(self, hint: String) -> (e: AppError)
        ensures
            e.code == self.code,
            e.message == self.message,
            e.hint == Some(hint),
            e@ == (AppErrorV { hint: Some(hint@), ..self@ }),
    {
        AppError { code: self.code, message: self.message, hint: Some(hint) }
    }
}

/// An error whose message is `prefix` followed by `detail`.
pub fn error_with(code: &'static str, prefix: &str, detail: &str) -> (e: AppError)
    ensures
        e@ == err_v(code@, prefix@ + detail@),
{
    let mut m = prefix.to_owned();
    push_str(&mut m, detail);
    AppError::new(code, m)
}




// ---------------------------------------------------------------------
// JSON values and their s-expressions.
/// A JSON value, each number kept as the text serde_json writes for it. An
/// object keeps its members in the order it was given them.
#[derive(Debug)]
pub enum JsonValue {
    Null,
    Bool(bool),
    Number(String),
    Str(String),
    Array(Vec<JsonValue>),
    Object(Vec<(String, JsonValue)>),
}

/// What a `JsonValue` holds.
pub enum JsonV {
    Null,
    Bool(bool),
    Number(Seq<char>),
    Str(Seq<char>),
    Array(Seq<JsonV>),
    Object(Seq<(Seq<char>, JsonV)>),
}

pub open spec fn json_view(v: JsonValue) -> JsonV
    decreases v,
{
    match v {
        JsonValue::Null => JsonV::Null,
        JsonValue::Bool(b) => JsonV::Bool(b),
        JsonValue::Number(n) => JsonV::Number(n@),
        JsonValue::Str(s) => JsonV::Str(s@),
        JsonValue::Array(items) => JsonV::Array(json_views(items@)),
        JsonValue::Object(pairs) => JsonV::Object(json_member_views(pairs@)),
    }
}

pub open spec fn json_views(items: Seq<JsonValue>) -> Seq<JsonV>
    decreases items,
{
    if items.len() == 0 {
        seq![]
    } else {
        json_views(items.drop_last()).push(json_view(items.last()))
    }
}

pub open spec fn json_member_views(pairs: Seq<(String, JsonValue)>) -> Seq<(Seq<char>, JsonV)>
    decreases pairs,
{
    if pairs.len() == 0 {
        seq![]
    } else {
        json_member_views(pairs.drop_last()).push((pairs.last().0@, json_view(pairs.last().1)))
    }
}

impl View for JsonValue {
    type V = JsonV;

    open spec fn view(&self) -> JsonV {
        json_view(*self)
    }
}

/// A text with `\` and `"` escaped by a backslash.
pub open spec fn escaped(s: Seq<char>) -> Seq<char>
    decreases s.len(),
{
    if s.len() == 0 {
        s
    } else {
        let c = s.last();
        escaped(s.drop_last()) + if c == '\\' || c == '"' {
            seq!['\\', c]
        } else {
            seq![c]
        }
    }
}

/// The s-expression of a JSON value: `nil`, `t`, numbers, quoted strings, lists,
/// and association lists for objects.
pub open spec fn sexp_of(v: JsonV) -> Seq<char>
    decreases v,
{
    match v {
        JsonV::Null => "nil"@,
        JsonV::Bool(b) => if b {
            "t"@
        } else {
            "nil"@
        },
        JsonV::Number(n) => n,
        JsonV::Str(s) => seq!['"'] + escaped(s) + seq!['"'],
        JsonV::Array(items) => seq!['('] + sexp_items(items) + seq![')'],
        JsonV::Object(pairs) => seq!['('] + sexp_members(pairs) + seq![')'],
    }
}

/// The s-expressions of `items`, separated by spaces.
pub open spec fn sexp_items(items: Seq<JsonV>) -> Seq<char>
    decreases items,
{
    if items.len() == 0 {
        seq![]
    } else if items.len() == 1 {
        sexp_of(items[0])
    } else {
        sexp_items(items.drop_last()) + seq![' '] + sexp_of(items.last())
    }
}

/// `(key . value)`.
pub open spec fn sexp_pair_of(key: Seq<char>, value: JsonV) -> Seq<char> {
    seq!['('] + key + " . "@ + sexp_of(value) + seq![')']
}

pub open spec fn sexp_members(pairs: Seq<(Seq<char>, JsonV)>) -> Seq<char>
    decreases pairs,
{
    if pairs.len() == 0 {
        seq![]
    } else if pairs.len() == 1 {
        seq!['('] + pairs[0].0 + " . "@ + sexp_of(pairs[0].1) + seq![')']
    } else {
        sexp_members(pairs.drop_last()) + seq![' '] + (seq!['('] + pairs.last().0 + " . "@ + sexp_of(pairs.last().1)
            + seq![')'])
    }
}

/// Escapes `\` and `"` for an s-expression string.
pub fn escape_sexp(s: &str) -> (r: String)
    ensures
        r@ == escaped(s@),
{
    let cs = chars_of(s);
    let mut out = String::new();
    let mut i: usize = 0;
    assert(s@.take(0) =~= Seq::<char>::empty());
    while i < cs.len()
        invariant
            cs@ == s@,
            i <= cs.len(),
            out@ == escaped(s@.take(i as int)),
        decreases cs.len() - i,
    {
        assert(s@.take(i + 1).drop_last() =~= s@.take(i as int));
        assert(s@.take(i + 1).last() == cs@[i as int]);
        let c = cs[i];
        let ghost before = out@;
        if c == '\\' || c == '"' {
            push_char(&mut out, '\\');
        }
        push_char(&mut out, c);
        assert(out@ =~= escaped(s@.take(i + 1)));
        i = i + 1;
    }
    assert(s@.take(cs.len() as int) =~= s@);
    out
}

/// `(key . value)` with the value as an s-expression.
pub fn sexp_pair(key: &str, value: &JsonValue) -> (r: String)
    ensures
        r@ == sexp_pair_of(key@, value@),
{
    let mut out = String::new();
    push_char(&mut out, '(');
    push_str(&mut out, key);
    push_str(&mut out, " . ");
    let v = value_to_sexp(value);
    push_str(&mut out, v.as_str());
    push_char(&mut out, ')');
    assert(out@ =~= sexp_pair_of(key@, value@));
    out
}

/// The s-expression of a JSON value, as the Emacs output prints it.
pub fn value_to_sexp(value: &JsonValue) -> (r: String)
    ensures
        r@ == sexp_of(value@),
    decreases value,
{
    match value {
        JsonValue::Null => owned_text("nil"),
        JsonValue::Bool(b) => if *b {
            owned_text("t")
        } else {
            owned_text("nil")
        },
        JsonValue::Number(n) => n.clone(),
        JsonValue::Str(s) => {
            let mut out = String::new();
            push_char(&mut out, '"');
            let e = escape_sexp(s.as_str());
            push_str(&mut out, e.as_str());
            push_char(&mut out, '"');
            assert(out@ =~= sexp_of(value@));
            out
        },
        JsonValue::Array(items) => {
            let mut out = String::new();
            push_char(&mut out, '(');
            let mut i: usize = 0;
            while i < items.len()
                invariant
                    i <= items.len(),
                    out@ == seq!['('] + sexp_items(json_views(items@.take(i as int))),
                    value is Array,
                    value->Array_0@ == items@,
                decreases items.len() - i,
            {
                proof {
                    lemma_json_views_take(items@, i as int);
                }
                proof {
                    assert(decreases_to!(value => value->Array_0));
                    assert(decreases_to!(value->Array_0 => value->Array_0@));
                    assert(decreases_to!(value->Array_0@ => value->Array_0@[i as int]));
                }
                let part = value_to_sexp(&items[i]);
                let ghost prev = json_views(items@.take(i as int));
                assert(json_views(items@.take(i + 1)).drop_last() =~= prev);
                assert(json_views(items@.take(i + 1)).last() == items@[i as int]@);
                if i > 0 {
                    push_char(&mut out, ' ');
                }
                push_str(&mut out, part.as_str());
                assert(out@ =~= seq!['('] + sexp_items(json_views(items@.take(i + 1))));
                i = i + 1;
            }
            push_char(&mut out, ')');
            assert(items@.take(items.len() as int) =~= items@);
            out
        },
        JsonValue::Object(pairs) => {
            let mut out = String::new();
            push_char(&mut out, '(');
            let mut i: usize = 0;
            while i < pairs.len()
                invariant
                    i <= pairs.len(),
                    out@ == seq!['('] + sexp_members(json_member_views(pairs@.take(i as int))),
                    value is Object,
                    value->Object_0@ == pairs@,
                decreases pairs.len() - i,
            {
                proof {
                    lemma_json_member_views_take(pairs@, i as int);
                }
                proof {
                    assert(decreases_to!(value => value->Object_0));
                    assert(decreases_to!(value->Object_0 => value->Object_0@));
                    assert(decreases_to!(value->Object_0@ => value->Object_0@[i as int]));
                    assert(decreases_to!(value->Object_0@[i as int] => value->Object_0@[i as int].1));
                }
                let part = value_to_sexp(&pairs[i].1);
                let ghost prev = json_member_views(pairs@.take(i as int));
                assert(json_member_views(pairs@.take(i + 1)).drop_last() =~= prev);
                if i > 0 {
                    push_char(&mut out, ' ');
                }
                push_char(&mut out, '(');
                push_str(&mut out, pairs[i].0.as_str());
                push_str(&mut out, " . ");
                push_str(&mut out, part.as_str());
                push_char(&mut out, ')');
                assert(out@ =~= seq!['('] + sexp_members(json_member_views(pairs@.take(i + 1))));
                i = i + 1;
            }
            push_char(&mut out, ')');
            assert(pairs@.take(pairs.len() as int) =~= pairs@);
            out
        },
    }
}

proof fn lemma_json_views_take(items: Seq<JsonValue>, i: int)
    requires
        0 <= i < items.len(),
    ensures
        json_views(items.take(i + 1)) == json_views(items.take(i)).push(json_view(items[i])),
        json_views(items.take(i)).len() == i,
{
    assert(items.take(i + 1).drop_last() =~= items.take(i));
    lemma_json_views_len(items.take(i));
}

proof fn lemma_json_views_len(items: Seq<JsonValue>)
    ensures
        json_views(items).len() == items.len(),
    decreases items.len(),
{
    if items.len() > 0 {
        lemma_json_views_len(items.drop_last());
    }
}

proof fn lemma_json_member_views_take(pairs: Seq<(String, JsonValue)>, i: int)
    requires
        0 <= i < pairs.len(),
    ensures
        json_member_views(pairs.take(i + 1)) == json_member_views(pairs.take(i)).push((pairs[i].0@, json_view(pairs[i].1))),
        json_member_views(pairs.take(i)).len() == i,
{
    assert(pairs.take(i + 1).drop_last() =~= pairs.take(i));
    lemma_json_member_views_len(pairs.take(i));
}

proof fn lemma_json_member_views_len(pairs: Seq<(String, JsonValue)>)
    ensures
        json_member_views(pairs).len() == pairs.len(),
    decreases pairs.len(),
{
    if pairs.len() > 0 {
        lemma_json_member_views_len(pairs.drop_last());
    }
}


// ---------------------------------------------------------------------
// Text tables.
/// The length of a text in UTF-8 bytes, as `str::len` returns it.
pub open spec fn byte_len(s: Seq<char>) -> nat {
    (encode_utf8(s).len() as usize) as nat
}

pub open spec fn spaces(n: nat) -> Seq<char> {
    Seq::new(n, |i: int| ' ')
}

/// `s` followed by spaces up to `width` characters, as `{:<width$}` writes it.
pub open spec fn pad_right(s: Seq<char>, width: nat) -> Seq<char> {
    if s.len() >= width {
        s
    } else {
        s + spaces((width - s.len()) as nat)
    }
}

pub open spec fn max_nat(a: nat, b: nat) -> nat {
    if a >= b {
        a
    } else {
        b
    }
}

/// The widest key of `rows`, in bytes.
pub open spec fn key_width(rows: Seq<(Seq<char>, Seq<char>)>) -> nat
    decreases rows.len(),
{
    if rows.len() == 0 {
        0
    } else {
        max_nat(key_width(rows.drop_last()), byte_len(rows.last().0))
    }
}

pub open spec fn kv_lines(rows: Seq<(Seq<char>, Seq<char>)>, width: nat) -> Seq<char>
    decreases rows.len(),
{
    if rows.len() == 0 {
        seq![]
    } else {
        kv_lines(rows.drop_last(), width) + pad_right(rows.last().0, width) + "  "@ + rows.last().1 + seq!['\n']
    }
}

/// Key/value lines with the keys padded to the widest key.
pub open spec fn kv_text(rows: Seq<(Seq<char>, Seq<char>)>) -> Seq<char> {
    kv_lines(rows, key_width(rows))
}

/// Pushes `s` and then spaces up to `width` characters.
fn push_padded(out: &mut String, s: &str, width: usize)
    ensures
        final(out)@ == old(out)@ + pad_right(s@, width as nat),
{
    let n = chars_of(s).len();
    push_str(out, s);
    if n < width {
        let ghost base = out@;
        let mut k: usize = n;
        while k < width
            invariant
                n <= k <= width,
                out@ == base + spaces((k - n) as nat),
            decreases width - k,
        {
            push_char(out, ' ');
            assert(out@ =~= base + spaces((k + 1 - n) as nat));
            k = k + 1;
        }
        assert(spaces((width - n) as nat) =~= spaces((width as nat - s@.len()) as nat));
    }
}

/// Key/value lines, keys left-aligned to the widest key.
pub fn kv_table(rows: &[(&str, String)]) -> (r: String)
    ensures
        r@ == kv_text(rows@.map_values(|x: (&str, String)| (x.0@, x.1@))),
{
    let ghost rv = rows@.map_values(|x: (&str, String)| (x.0@, x.1@));
    let mut width: usize = 0;
    let mut i: usize = 0;
    while i < rows.len()
        invariant
            rv == rows@.map_values(|x: (&str, String)| (x.0@, x.1@)),
            i <= rows.len(),
            width == key_width(rv.take(i as int)),
        decreases rows.len() - i,
    {
        assert(rv.take(i + 1).drop_last() =~= rv.take(i as int));
        assert(rv.take(i + 1).last() == rv[i as int]);
        let k = rows[i].0.len();
        assert(k == byte_len(rv[i as int].0));
        if k > width {
            width = k;
        }
        i = i + 1;
    }
    assert(rv.take(rows.len() as int) =~= rv);
    let mut out = String::new();
    let mut j: usize = 0;
    assert(out@ =~= kv_lines(rv.take(0), width as nat));
    while j < rows.len()
        invariant
            rv == rows@.map_values(|x: (&str, String)| (x.0@, x.1@)),
            j <= rows.len(),
            width == key_width(rv),
            out@ == kv_lines(rv.take(j as int), width as nat),
        decreases rows.len() - j,
    {
        assert(rv.take(j + 1).drop_last() =~= rv.take(j as int));
        assert(rv.take(j + 1).last() == rv[j as int]);
        push_padded(&mut out, rows[j].0, width);
        push_str(&mut out, "  ");
        push_str(&mut out, rows[j].1.as_str());
        push_char(&mut out, '\n');
        assert(out@ =~= kv_lines(rv.take(j + 1), width as nat));
        j = j + 1;
    }
    assert(rv.take(rows.len() as int) =~= rv);
    out
}

/// `parts` joined by `sep`.
pub open spec fn join(parts: Seq<Seq<char>>, sep: Seq<char>) -> Seq<char>
    decreases parts.len(),
{
    if parts.len() == 0 {
        seq![]
    } else if parts.len() == 1 {
        parts[0]
    } else {
        join(parts.drop_last(), sep) + sep + parts.last()
    }
}

/// The width of column `i` after the cells of `rows`, starting from `w`.
pub open spec fn cell_width(rows: Seq<Seq<Seq<char>>>, i: int, w: nat) -> nat
    decreases rows.len(),
{
    if rows.len() == 0 {
        w
    } else if i < rows.last().len() {
        max_nat(cell_width(rows.drop_last(), i, w), byte_len(rows.last()[i]))
    } else {
        cell_width(rows.drop_last(), i, w)
    }
}

/// Each column as wide as its header and its widest cell, in bytes.
pub open spec fn column_widths(headers: Seq<Seq<char>>, rows: Seq<Seq<Seq<char>>>) -> Seq<nat> {
    Seq::new(headers.len(), |i: int| cell_width(rows, i, byte_len(headers[i])))
}

/// Each cell padded to its column's width.
pub open spec fn pad_all(cells: Seq<Seq<char>>, widths: Seq<nat>) -> Seq<Seq<char>>
    decreases cells.len(),
{
    if cells.len() == 0 {
        seq![]
    } else {
        pad_all(cells.drop_last(), widths).push(pad_right(cells.last(), widths[cells.len() - 1]))
    }
}

/// One table line: each cell padded to its column's width, two spaces between.
pub open spec fn table_line(cells: Seq<Seq<char>>, widths: Seq<nat>) -> Seq<char> {
    join(pad_all(cells, widths), "  "@) + seq!['\n']
}

proof fn lemma_pad_all_len(cells: Seq<Seq<char>>, widths: Seq<nat>)
    ensures
        pad_all(cells, widths).len() == cells.len(),
    decreases cells.len(),
{
    if cells.len() > 0 {
        lemma_pad_all_len(cells.drop_last(), widths);
    }
}

pub open spec fn table_lines(rows: Seq<Seq<Seq<char>>>, widths: Seq<nat>) -> Seq<char>
    decreases rows.len(),
{
    if rows.len() == 0 {
        seq![]
    } else {
        table_lines(rows.drop_last(), widths) + table_line(rows.last(), widths)
    }
}

/// The header line and one line per row; with no rows, the headers alone.
pub open spec fn columns_text(headers: Seq<Seq<char>>, rows: Seq<Seq<Seq<char>>>) -> Seq<char> {
    if rows.len() == 0 {
        join(headers, "  "@) + seq!['\n']
    } else {
        table_line(headers, column_widths(headers, rows)) + table_lines(rows, column_widths(headers, rows))
    }
}

pub open spec fn texts_of(v: Seq<&str>) -> Seq<Seq<char>> {
    v.map_values(|s: &str| s@)
}

pub open spec fn cells_of(rows: Seq<Vec<String>>) -> Seq<Seq<Seq<char>>> {
    rows.map_values(|r: Vec<String>| r.deep_view())
}

fn header_line(headers: &[&str], widths: &Vec<usize>, pad: bool) -> (r: String)
    requires
        widths.len() == headers.len(),
    ensures
        pad ==> r@ == table_line(texts_of(headers@), widths@.map_values(|w: usize| w as nat)),
        !pad ==> r@ == join(texts_of(headers@), "  "@) + seq!['\n'],
{
    let ghost hv = texts_of(headers@);
    let ghost wv = widths@.map_values(|w: usize| w as nat);
    let mut out = String::new();
    let mut i: usize = 0;
    while i < headers.len()
        invariant
            hv == texts_of(headers@),
            wv == widths@.map_values(|w: usize| w as nat),
            widths.len() == headers.len(),
            i <= headers.len(),
            pad ==> out@ == join(pad_all(hv.take(i as int), wv), "  "@),
            !pad ==> out@ == join(hv.take(i as int), "  "@),
        decreases headers.len() - i,
    {
        assert(hv.take(i + 1).drop_last() =~= hv.take(i as int));
        assert(hv.take(i + 1).last() == hv[i as int]);
        proof {
            lemma_pad_all_len(hv.take(i as int), wv);
        }
        if i > 0 {
            push_str(&mut out, "  ");
        }
        if pad {
            push_padded(&mut out, headers[i], widths[i]);
        } else {
            push_str(&mut out, headers[i]);
        }
        proof {
            if pad {
                let prev = pad_all(hv.take(i as int), wv);
                assert(pad_all(hv.take(i + 1), wv).drop_last() =~= prev);
                assert(out@ =~= join(pad_all(hv.take(i + 1), wv), "  "@));
            } else {
                assert(out@ =~= join(hv.take(i + 1), "  "@));
            }
        }
        i = i + 1;
    }
    assert(hv.take(headers.len() as int) =~= hv);
    push_char(&mut out, '\n');
    out
}

fn row_line(cells: &Vec<String>, widths: &Vec<usize>) -> (r: String)
    requires
        cells.len() <= widths.len(),
    ensures
        r@ == table_line(cells.deep_view(), widths@.map_values(|w: usize| w as nat)),
{
    let ghost cv = cells.deep_view();
    let ghost wv = widths@.map_values(|w: usize| w as nat);
    let mut out = String::new();
    let mut i: usize = 0;
    while i < cells.len()
        invariant
            cv == cells.deep_view(),
            wv == widths@.map_values(|w: usize| w as nat),
            cells.len() <= widths.len(),
            i <= cells.len(),
            out@ == join(pad_all(cv.take(i as int), wv), "  "@),
        decreases cells.len() - i,
    {
        assert(cv.take(i + 1).drop_last() =~= cv.take(i as int));
        assert(cv.take(i + 1).last() == cv[i as int]);
        proof {
            lemma_pad_all_len(cv.take(i as int), wv);
        }
        if i > 0 {
            push_str(&mut out, "  ");
        }
        push_padded(&mut out, cells[i].as_str(), widths[i]);
        proof {
            let prev = pad_all(cv.take(i as int), wv);
            assert(pad_all(cv.take(i + 1), wv).drop_last() =~= prev);
            assert(out@ =~= join(pad_all(cv.take(i + 1), wv), "  "@));
        }
        i = i + 1;
    }
    assert(cv.take(cells.len() as int) =~= cv);
    push_char(&mut out, '\n');
    out
}

/// A column table: headers, then one line per row, each column padded to its
/// widest cell. Every row has at most as many cells as there are headers.
pub fn columns(headers: &[&str], rows: &[Vec<String>]) -> (r: String)
    requires
        forall|k: int| 0 <= k < rows@.len() ==> (#[trigger] rows@[k]).len() <= headers@.len(),
    ensures
        r@ == columns_text(texts_of(headers@), cells_of(rows@)),
{
    let ghost hv = texts_of(headers@);
    let ghost rv = cells_of(rows@);
    if rows.len() == 0 {
        let mut widths: Vec<usize> = Vec::new();
        let mut i: usize = 0;
        while i < headers.len()
            invariant
                i <= headers.len(),
                widths.len() == i,
            decreases headers.len() - i,
        {
            widths.push(0);
            i = i + 1;
        }
        return header_line(headers, &widths, false);
    }
    let mut widths: Vec<usize> = Vec::new();
    let mut i: usize = 0;
    while i < headers.len()
        invariant
            hv == texts_of(headers@),
            rv == cells_of(rows@),
            i <= headers.len(),
            widths.len() == i,
            forall|j: int| 0 <= j < i ==> #[trigger] widths@[j] == cell_width(rv.take(0), j, byte_len(hv[j])),
        decreases headers.len() - i,
    {
        assert(rv.take(0).len() == 0);
        widths.push(headers[i].len());
        i = i + 1;
    }
    let mut r: usize = 0;
    while r < rows.len()
        invariant
            hv == texts_of(headers@),
            rv == cells_of(rows@),
            forall|k: int| 0 <= k < rows@.len() ==> (#[trigger] rows@[k]).len() <= headers@.len(),
            r <= rows.len(),
            widths.len() == headers.len(),
            forall|j: int| 0 <= j < headers.len() ==> #[trigger] widths@[j] == cell_width(rv.take(r as int), j, byte_len(hv[j])),
        decreases rows.len() - r,
    {
        assert(rv.take(r + 1).drop_last() =~= rv.take(r as int));
        assert(rv.take(r + 1).last() == rv[r as int]);
        let row = &rows[r];
        assert(row.deep_view() == rv[r as int]);
        let ghost before = widths@;
        let mut c: usize = 0;
        while c < row.len()
            invariant
                hv == texts_of(headers@),
                rv == cells_of(rows@),
                row.deep_view() == rv[r as int],
                row.len() <= headers.len(),
                widths.len() == headers.len(),
                c <= row.len(),
                forall|j: int| 0 <= j < c ==> #[trigger] widths@[j] == max_nat(before[j] as nat, byte_len(rv[r as int][j])),
                forall|j: int| c <= j < headers.len() ==> #[trigger] widths@[j] == before[j],
            decreases row.len() - c,
        {
            let n = row[c].as_str().len();
            assert(row.deep_view()[c as int] == row@[c as int]@);
            assert(n == byte_len(rv[r as int][c as int]));
            if n > widths[c] {
                widths.set(c, n);
            }
            c = c + 1;
        }
        assert forall|j: int| 0 <= j < headers.len() implies #[trigger] widths@[j] == cell_width(
            rv.take(r + 1),
            j,
            byte_len(hv[j]),
        ) by {
            assert(rv.take(r + 1).drop_last() =~= rv.take(r as int));
        }
        r = r + 1;
    }
    assert(rv.take(rows.len() as int) =~= rv);
    assert(widths@.map_values(|w: usize| w as nat) =~= column_widths(hv, rv));
    let mut out = header_line(headers, &widths, true);
    let mut k: usize = 0;
    while k < rows.len()
        invariant
            hv == texts_of(headers@),
            rv == cells_of(rows@),
            forall|q: int| 0 <= q < rows@.len() ==> (#[trigger] rows@[q]).len() <= headers@.len(),
            widths.len() == headers.len(),
            widths@.map_values(|w: usize| w as nat) == column_widths(hv, rv),
            k <= rows.len(),
            out@ == table_line(hv, column_widths(hv, rv)) + table_lines(rv.take(k as int), column_widths(hv, rv)),
        decreases rows.len() - k,
    {
        assert(rv.take(k + 1).drop_last() =~= rv.take(k as int));
        assert(rv.take(k + 1).last() == rv[k as int]);
        assert(rows@[k as int].len() <= headers@.len());
        let line = row_line(&rows[k], &widths);
        push_str(&mut out, line.as_str());
        assert(out@ =~= table_line(hv, column_widths(hv, rv)) + table_lines(rv.take(k + 1), column_widths(hv, rv)));
        k = k + 1;
    }
    assert(rv.take(rows.len() as int) =~= rv);
    out
}


// ---------------------------------------------------------------------
// Failures.
/// The process exit status for an error code: 2 when auth is missing or lacks a
/// scope, 3 when something is not found, 4 on a conflict, 1 otherwise.
pub open spec fn exit_code_of(code: Seq<char>) -> i32 {
    if code == "auth_missing"@ || code == "auth_scope"@ {
        2
    } else if code == "not_found"@ {
        3
    } else if code == "conflict"@ {
        4
    } else {
        1
    }
}

/// The exit status `fail` returns for an error code.
pub fn exit_code(code: &str) -> (r: i32)
    ensures
        r == exit_code_of(code@),
{
    if str_eq(code, "auth_missing") || str_eq(code, "auth_scope") {
        2
    } else if str_eq(code, "not_found") {
        3
    } else if str_eq(code, "conflict") {
        4
    } else {
        1
    }
}

/// The s-expression an error is printed as under `--sexp`.
pub open spec fn failure_sexp_of(code: Seq<char>, message: Seq<char>, hint: Option<Seq<char>>) -> Seq<char> {
    let pairs = sexp_pair_of("ok"@, JsonV::Bool(false)) + seq![' '] + sexp_pair_of("code"@, JsonV::Str(code)) + seq![' ']
        + sexp_pair_of("message"@, JsonV::Str(message));
    seq!['('] + match hint {
        Some(h) => pairs + seq![' '] + sexp_pair_of("hint"@, JsonV::Str(h)),
        None => pairs,
    } + seq![')']
}

/// `(ok . nil)`, the code, the message and the hint if there is one, as an
/// association list.
pub fn failure_sexp(code: &str, message: &str, hint: Option<&str>) -> (r: String)
    ensures
        r@ == failure_sexp_of(
            code@,
            message@,
            match hint {
                Some(h) => Some(h@),
                None => None,
            },
        ),
{
    let mut out = String::new();
    push_char(&mut out, '(');
    let ok = sexp_pair("ok", &JsonValue::Bool(false));
    push_str(&mut out, ok.as_str());
    push_char(&mut out, ' ');
    let c = sexp_pair("code", &JsonValue::Str(owned_text(code)));
    push_str(&mut out, c.as_str());
    push_char(&mut out, ' ');
    let m = sexp_pair("message", &JsonValue::Str(owned_text(message)));
    push_str(&mut out, m.as_str());
    match hint {
        Some(h) => {
            push_char(&mut out, ' ');
            let hp = sexp_pair("hint", &JsonValue::Str(owned_text(h)));
            push_str(&mut out, hp.as_str());
        },
        None => {},
    }
    push_char(&mut out, ')');
    proof {
        reveal_strlit("ok");
        reveal_strlit("code");
        reveal_strlit("message");
        reveal_strlit("hint");
    }
    assert(out@ =~= failure_sexp_of(
        code@,
        message@,
        match hint {
            Some(h) => Some(h@),
            None => None,
        },
    ));
    out
}


pub proof fn lemma_json_views_index(items: Seq<JsonValue>)
    ensures
        json_views(items).len() == items.len(),
        forall|i: int| 0 <= i < items.len() ==> #[trigger] json_views(items)[i] == json_view(items[i]),
    decreases items.len(),
{
    if items.len() > 0 {
        lemma_json_views_index(items.drop_last());
        assert forall|i: int| 0 <= i < items.len() implies #[trigger] json_views(items)[i] == json_view(items[i]) by {
            if i < items.len() - 1 {
                assert(items.drop_last()[i] == items[i]);
            }
        }
    }
}

pub proof fn lemma_json_member_views_index(pairs: Seq<(String, JsonValue)>)
    ensures
        json_member_views(pairs).len() == pairs.len(),
        forall|i: int|
            0 <= i < pairs.len() ==> #[trigger] json_member_views(pairs)[i] == (pairs[i].0@, json_view(pairs[i].1)),
    decreases pairs.len(),
{
    if pairs.len() > 0 {
        lemma_json_member_views_index(pairs.drop_last());
        assert forall|i: int| 0 <= i < pairs.len() implies #[trigger] json_member_views(pairs)[i] == (
            pairs[i].0@,
            json_view(pairs[i].1),
        ) by {
            if i < pairs.len() - 1 {
                assert(pairs.drop_last()[i] == pairs[i]);
            }
        }
    }
}


/// A copy of a JSON value.
pub fn copy_json(v: &JsonValue) -> (r: JsonValue)
    ensures
        r@ == v@,
    decreases v,
{
    match v {
        JsonValue::Null => JsonValue::Null,
        JsonValue::Bool(b) => JsonValue::Bool(*b),
        JsonValue::Number(n) => JsonValue::Number(n.clone()),
        JsonValue::Str(s) => JsonValue::Str(s.clone()),
        JsonValue::Array(items) => {
            let mut out: Vec<JsonValue> = Vec::new();
            let mut i: usize = 0;
            assert(out@ =~= items@.take(0));
            while i < items.len()
                invariant
                    i <= items.len(),
                    v is Array,
                    v->Array_0@ == items@,
                    json_views(out@) == json_views(items@.take(i as int)),
                decreases items.len() - i,
            {
                proof {
                    assert(decreases_to!(v => v->Array_0));
                    assert(decreases_to!(v->Array_0 => v->Array_0@));
                    assert(decreases_to!(v->Array_0@ => v->Array_0@[i as int]));
                    lemma_json_views_take(items@, i as int);
                }
                let c = copy_json(&items[i]);
                let ghost before = out@;
                out.push(c);
                assert(out@.drop_last() =~= before);
                i = i + 1;
            }
            assert(items@.take(items.len() as int) =~= items@);
            JsonValue::Array(out)
        },
        JsonValue::Object(pairs) => {
            let mut out: Vec<(String, JsonValue)> = Vec::new();
            let mut i: usize = 0;
            assert(out@ =~= pairs@.take(0));
            while i < pairs.len()
                invariant
                    i <= pairs.len(),
                    v is Object,
                    v->Object_0@ == pairs@,
                    json_member_views(out@) == json_member_views(pairs@.take(i as int)),
                decreases pairs.len() - i,
            {
                proof {
                    assert(decreases_to!(v => v->Object_0));
                    assert(decreases_to!(v->Object_0 => v->Object_0@));
                    assert(decreases_to!(v->Object_0@ => v->Object_0@[i as int]));
                    assert(decreases_to!(v->Object_0@[i as int] => v->Object_0@[i as int].1));
                    lemma_json_member_views_take(pairs@, i as int);
                }
                let c = copy_json(&pairs[i].1);
                let k = pairs[i].0.clone();
                let ghost before = out@;
                out.push((k, c));
                assert(out@.drop_last() =~= before);
                i = i + 1;
            }
            assert(pairs@.take(pairs.len() as int) =~= pairs@);
            JsonValue::Object(out)
        },
    }
}


/// The members of the `error` object of a failure body.
pub open spec fn error_members(code: Seq<char>, message: Seq<char>, hint: Option<Seq<char>>) -> Seq<(Seq<char>, JsonV)> {
    let base = seq![("code"@, JsonV::Str(code)), ("message"@, JsonV::Str(message))];
    match hint {
        Some(h) => base.push(("hint"@, JsonV::Str(h))),
        None => base,
    }
}

/// The body an error is printed as under `--json`.
pub open spec fn failure_json_of(code: Seq<char>, message: Seq<char>, hint: Option<Seq<char>>) -> JsonV {
    JsonV::Object(seq![("ok"@, JsonV::Bool(false)), ("error"@, JsonV::Object(error_members(code, message, hint)))])
}

/// `{"ok": false, "error": {"code", "message", "hint" when there is one}}`.
pub fn failure_json(code: &str, message: &str, hint: Option<&str>) -> (r: JsonValue)
    ensures
        r@ == failure_json_of(
            code@,
            message@,
            match hint {
                Some(h) => Some(h@),
                None => None,
            },
        ),
{
    let mut members: Vec<(String, JsonValue)> = Vec::new();
    members.push((owned_text("code"), JsonValue::Str(owned_text(code))));
    members.push((owned_text("message"), JsonValue::Str(owned_text(message))));
    match hint {
        Some(h) => members.push((owned_text("hint"), JsonValue::Str(owned_text(h)))),
        None => {},
    }
    let mut body: Vec<(String, JsonValue)> = Vec::new();
    body.push((owned_text("ok"), JsonValue::Bool(false)));
    let ghost mv = members@;
    body.push((owned_text("error"), JsonValue::Object(members)));
    proof {
        reveal_with_fuel(json_member_views, 4);
        assert(json_member_views(mv) =~= error_members(
            code@,
            message@,
            match hint {
                Some(h) => Some(h@),
                None => None,
            },
        ));
        assert(json_member_views(body@) =~= failure_json_of(
            code@,
            message@,
            match hint {
                Some(h) => Some(h@),
                None => None,
            },
        )->Object_0);
    }
    JsonValue::Object(body)
}

/// The body a result is printed as under `--json`.
pub open spec fn success_json_of(data: JsonV) -> JsonV {
    JsonV::Object(seq![("ok"@, JsonV::Bool(true)), ("data"@, data)])
}

/// `{"ok": true, "data": data}`.
pub fn success_json(data: JsonValue) -> (r: JsonValue)
    ensures
        r@ == success_json_of(data@),
{
    let mut body: Vec<(String, JsonValue)> = Vec::new();
    body.push((owned_text("ok"), JsonValue::Bool(true)));
    let ghost d = data@;
    body.push((owned_text("data"), data));
    proof {
        reveal_with_fuel(json_member_views, 3);
        assert(json_member_views(body@) =~= success_json_of(d)->Object_0);
    }
    JsonValue::Object(body)
}

} // verus!
