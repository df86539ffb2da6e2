//! Rendering a document as JSON text.
//!
//! `json_text` defines the rendering character by character — including
//! string escaping — and `to_json_text` produces exactly that rendering.

use vstd::prelude::*;
use vstd::string::StrSliceExecFns;
use vstd::string::StringExecFns;

use crate::json::{
    jsize, jsize_entries, jsize_seq, jview_entries, jview_seq, lemma_jsize_entries_index,
    lemma_jsize_pos, lemma_jsize_seq_index, lemma_jview_entries, lemma_jview_seq, Json,
    JsonV,
};
use crate::strutil::{char_from_u32, digit_char, push_char};

verus! {

/// The hexadecimal digit character for a value below sixteen, lower case.
pub open spec fn hex_digit_char(d: int) -> char {
    if d < 10 {
        digit_char(d)
    } else {
        ((87 + d) as u32) as char
    }
}

/// The rendering of one character inside a JSON string literal.
pub open spec fn escape_char(c: char) -> Seq<char> {
    if c == '"' {
        seq!['\\', '"']
    } else if c == '\\' {
        seq!['\\', '\\']
    } else if c == '\u{8}' {
        seq!['\\', 'b']
    } else if c == '\t' {
        seq!['\\', 't']
    } else if c == '\n' {
        seq!['\\', 'n']
    } else if c == '\u{c}' {
        seq!['\\', 'f']
    } else if c == '\r' {
        seq!['\\', 'r']
    } else if (c as u32) < 32 {
        seq!['\\', 'u', '0', '0', hex_digit_char(c as int / 16), hex_digit_char(
            c as int % 16)]
    } else {
        seq![c]
    }
}

/// The rendering of a character sequence inside a string literal.
pub open spec fn escape_seq(t: Seq<char>) -> Seq<char>
    decreases t.len(),
{
    if t.len() == 0 {
        Seq::empty()
    } else {
        escape_char(t[0]) + escape_seq(t.drop_first())
    }
}

/// The rendering of a JSON string literal, quotes included.
pub open spec fn string_text(t: Seq<char>) -> Seq<char> {
    seq!['"'] + escape_seq(t) + seq!['"']
}

/// The rendering of a document.
pub open spec fn json_text(v: JsonV) -> Seq<char>
    decreases jsize(v), 0int,
{
    match v {
        JsonV::Null => "null"@,
        JsonV::Bool(b) => if b {
            "true"@
        } else {
            "false"@
        },
        JsonV::Num(t) => t,
        JsonV::Str(t) => string_text(t),
        JsonV::Arr(items) => seq!['['] + list_text(items) + seq![']'],
        JsonV::Obj(entries) => seq!['{'] + entries_text(entries) + seq!['}'],
    }
}

/// The comma-joined renderings of array elements.
pub open spec fn list_text(s: Seq<JsonV>) -> Seq<char>
    decreases jsize_seq(s), 1int,
    via list_text_dec
{
    if s.len() == 0 {
        Seq::empty()
    } else if s.len() == 1 {
        json_text(s[0])
    } else {
        json_text(s[0]) + seq![','] + list_text(s.drop_first())
    }
}

/// The comma-joined renderings of object entries.
pub open spec fn entries_text(s: Seq<(Seq<char>, JsonV)>) -> Seq<char>
    decreases jsize_entries(s), 1int,
    via entries_text_dec
{
    if s.len() == 0 {
        Seq::empty()
    } else if s.len() == 1 {
        string_text(s[0].0) + seq![':'] + json_text(s[0].1)
    } else {
        string_text(s[0].0) + seq![':'] + json_text(s[0].1) + seq![','] + entries_text(
            s.drop_first())
    }
}

#[via_fn]
proof fn list_text_dec(s: Seq<JsonV>) {
    if s.len() > 0 {
        lemma_jsize_pos(s[0]);
        lemma_jsize_seq_index(s, 0);
    }
}

#[via_fn]
proof fn entries_text_dec(s: Seq<(Seq<char>, JsonV)>) {
    if s.len() > 0 {
        lemma_jsize_pos(s[0].1);
        lemma_jsize_entries_index(s, 0);
    }
}

/// Escaping distributes over concatenation.
proof fn lemma_escape_seq_app(a: Seq<char>, b: Seq<char>)
    ensures
        escape_seq(a + b) == escape_seq(a) + escape_seq(b),
    decreases a.len(),
{
    if a.len() == 0 {
        assert(a + b =~= b);
        assert(escape_seq(a) + escape_seq(b) =~= escape_seq(b));
    } else {
        lemma_escape_seq_app(a.drop_first(), b);
        assert((a + b).drop_first() =~= a.drop_first() + b);
        assert((a + b)[0] == a[0]);
        assert(escape_char(a[0]) + (escape_seq(a.drop_first()) + escape_seq(b))
            =~= (escape_char(a[0]) + escape_seq(a.drop_first())) + escape_seq(b));
    }
}

/// One more element extends the joined rendering by a comma and the
/// element's rendering.
proof fn lemma_list_text_snoc(s: Seq<JsonV>, x: JsonV)
    ensures
        list_text(s.push(x)) == if s.len() == 0 {
            json_text(x)
        } else {
            list_text(s) + seq![','] + json_text(x)
        },
    decreases s.len(),
{
    let p = s.push(x);
    if s.len() == 0 {
        assert(p.len() == 1);
        assert(p[0] == x);
    } else {
        lemma_list_text_snoc(s.drop_first(), x);
        assert(p[0] == s[0]);
        assert(p.drop_first() =~= s.drop_first().push(x));
        if s.len() == 1 {
            assert(s.drop_first().len() == 0);
            assert(list_text(p) == json_text(s[0]) + seq![','] + json_text(x));
        } else {
            assert(json_text(p[0]) + seq![','] + (list_text(s.drop_first()) + seq![',']
                + json_text(x)) =~= (json_text(s[0]) + seq![','] + list_text(
                s.drop_first())) + seq![','] + json_text(x));
        }
    }
}

/// One more entry extends the joined rendering by a comma and the entry's
/// rendering.
proof fn lemma_entries_text_snoc(s: Seq<(Seq<char>, JsonV)>, k: Seq<char>, x: JsonV)
    ensures
        entries_text(s.push((k, x))) == if s.len() == 0 {
            string_text(k) + seq![':'] + json_text(x)
        } else {
            entries_text(s) + seq![','] + (string_text(k) + seq![':'] + json_text(x))
        },
    decreases s.len(),
{
    let p = s.push((k, x));
    if s.len() == 0 {
        assert(p.len() == 1);
        assert(p[0] == (k, x));
    } else {
        lemma_entries_text_snoc(s.drop_first(), k, x);
        assert(p[0] == s[0]);
        assert(p.drop_first() =~= s.drop_first().push((k, x)));
        let head = string_text(s[0].0) + seq![':'] + json_text(s[0].1);
        let tail = string_text(k) + seq![':'] + json_text(x);
        if s.len() == 1 {
            assert(s.drop_first().len() == 0);
            assert(entries_text(p) == head + seq![','] + tail);
            assert(head + seq![','] + tail =~= entries_text(s) + seq![','] + tail);
        } else {
            assert(head + seq![','] + (entries_text(s.drop_first()) + seq![','] + tail)
                =~= (head + seq![','] + entries_text(s.drop_first())) + seq![','] + tail);
        }
    }
}

/// Appends the rendering of one string-literal character.
fn push_escaped_char(out: &mut String, c: char)
    ensures
        final(out)@ == old(out)@ + escape_char(c),
{
    if c == '"' {
        push_char(out, '\\');
        push_char(out, '"');
    } else if c == '\\' {
        push_char(out, '\\');
        push_char(out, '\\');
    } else if c == '\u{8}' {
        push_char(out, '\\');
        push_char(out, 'b');
    } else if c == '\t' {
        push_char(out, '\\');
        push_char(out, 't');
    } else if c == '\n' {
        push_char(out, '\\');
        push_char(out, 'n');
    } else if c == '\u{c}' {
        push_char(out, '\\');
        push_char(out, 'f');
    } else if c == '\r' {
        push_char(out, '\\');
        push_char(out, 'r');
    } else if (c as u32) < 32 {
        push_char(out, '\\');
        push_char(out, 'u');
        push_char(out, '0');
        push_char(out, '0');
        let hi = (c as u32) / 16;
        let lo = (c as u32) % 16;
        let hc = if hi < 10 {
            char_from_u32(48 + hi)
        } else {
            char_from_u32(87 + hi)
        };
        let lc = if lo < 10 {
            char_from_u32(48 + lo)
        } else {
            char_from_u32(87 + lo)
        };
        push_char(out, hc);
        push_char(out, lc);
    } else {
        push_char(out, c);
    }
    proof {
        assert(out@ =~= old(out)@ + escape_char(c));
    }
}

/// Appends a JSON string literal, quotes included.
fn push_string_literal(out: &mut String, t: &str)
    ensures
        final(out)@ == old(out)@ + string_text(t@),
{
    push_char(out, '"');
    let n = t.unicode_len();
    let mut i: usize = 0;
    while i < n
        invariant
            i <= n,
            n == t@.len(),
            out@ == old(out)@ + seq!['"'] + escape_seq(t@.take(i as int)),
        decreases n - i,
    {
        let c = t.get_char(i);
        push_escaped_char(out, c);
        proof {
            assert(t@.take(i as int + 1) =~= t@.take(i as int) + seq![t@[i as int]]);
            lemma_escape_seq_app(t@.take(i as int), seq![t@[i as int]]);
            assert(seq![t@[i as int]].drop_first() =~= Seq::<char>::empty());
            assert(escape_seq(Seq::<char>::empty()) == Seq::<char>::empty());
            assert(escape_char(t@[i as int]) + Seq::<char>::empty()
                =~= escape_char(t@[i as int]));
            assert(escape_seq(seq![t@[i as int]]) =~= escape_char(t@[i as int]));
            assert(out@ =~= old(out)@ + seq!['"'] + escape_seq(t@.take(i as int + 1)));
        }
        i = i + 1;
    }
    proof {
        assert(t@.take(n as int) =~= t@);
    }
    push_char(out, '"');
    proof {
        assert(out@ =~= old(out)@ + string_text(t@));
    }
}

/// The JSON text of a document.
pub fn to_json_text(v: &Json) -> (r: String)
    ensures
        r@ == json_text(v@),
    decreases jsize(v@),
{
    match v {
        Json::Null => "null".to_owned(),
        Json::Bool(b) => if *b {
            "true".to_owned()
        } else {
            "false".to_owned()
        },
        Json::Num(t) => t.clone(),
        Json::Str(t) => {
            let mut out = String::new();
            push_string_literal(&mut out, t.as_str());
            proof {
                assert(out@ =~= json_text(v@));
            }
            out
        },
        Json::Arr(items) => {
            let mut out = String::new();
            push_char(&mut out, '[');
            proof {
                lemma_jview_seq(items@);
                assert(jview_seq(items@).take(0)
                    =~= Seq::<JsonV>::empty());
            }
            let mut i: usize = 0;
            while i < items.len()
                invariant
                    i <= items@.len(),
                    jview_seq(items@).len() == items@.len(),
                    forall|j: int| 0 <= j < items@.len() ==> #[trigger] jview_seq(
                        items@)[j] == crate::json::jview(items@[j]),
                    out@ == seq!['['] + list_text(jview_seq(items@).take(i as int)),
                    v@ == JsonV::Arr(jview_seq(items@)),
                decreases items@.len() - i,
            {
                proof {
                    lemma_jsize_seq_index(jview_seq(items@), i as int);
                    assert(jsize(items@[i as int]@) < jsize(v@));
                }
                if i > 0 {
                    push_char(&mut out, ',');
                }
                let piece = to_json_text(&items[i]);
                out.append(piece.as_str());
                proof {
                    let view = jview_seq(items@);
                    assert(view.take(i as int + 1) =~= view.take(i as int).push(
                        view[i as int]));
                    lemma_list_text_snoc(view.take(i as int), view[i as int]);
                    assert(out@ =~= seq!['['] + list_text(view.take(i as int + 1)));
                }
                i = i + 1;
            }
            proof {
                let view = jview_seq(items@);
                assert(view.take(view.len() as int) =~= view);
            }
            push_char(&mut out, ']');
            proof {
                assert(out@ =~= json_text(v@));
            }
            out
        },
        Json::Obj(entries) => {
            let mut out = String::new();
            push_char(&mut out, '{');
            proof {
                lemma_jview_entries(entries@);
                assert(jview_entries(entries@).take(0)
                    =~= Seq::<(Seq<char>, JsonV)>::empty());
            }
            let mut i: usize = 0;
            while i < entries.len()
                invariant
                    i <= entries@.len(),
                    jview_entries(entries@).len() == entries@.len(),
                    forall|j: int| 0 <= j < entries@.len() ==> #[trigger] jview_entries(
                        entries@)[j] == (entries@[j].0@, crate::json::jview(
                        entries@[j].1)),
                    out@ == seq!['{'] + entries_text(jview_entries(entries@).take(
                        i as int)),
                    v@ == JsonV::Obj(jview_entries(entries@)),
                decreases entries@.len() - i,
            {
                proof {
                    lemma_jsize_entries_index(jview_entries(entries@), i as int);
                    assert(jsize(entries@[i as int].1@) < jsize(v@));
                }
                if i > 0 {
                    push_char(&mut out, ',');
                }
                push_string_literal(&mut out, entries[i].0.as_str());
                push_char(&mut out, ':');
                let piece = to_json_text(&entries[i].1);
                out.append(piece.as_str());
                proof {
                    let view = jview_entries(entries@);
                    assert(view.take(i as int + 1) =~= view.take(i as int).push(
                        view[i as int]));
                    lemma_entries_text_snoc(view.take(i as int), view[i as int].0,
                        view[i as int].1);
                    assert(out@ =~= seq!['{'] + entries_text(view.take(i as int + 1)));
                }
                i = i + 1;
            }
            proof {
                let view = jview_entries(entries@);
                assert(view.take(view.len() as int) =~= view);
            }
            push_char(&mut out, '}');
            proof {
                assert(out@ =~= json_text(v@));
            }
            out
        },
    }
}

} // verus!
