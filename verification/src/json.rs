//! The compact JSON text of a value, as `serde_json::to_string` writes it: no spaces, strings
//! quoted with `"`, `\` and control characters escaped, mappings in their order.
use vstd::prelude::*;
use crate::text::{append_str, from_chars, to_chars};
use crate::value::{entry_models, item_models, model, Value, ValueModel};

verus! {

/// The lowercase hexadecimal digit of a value below 16.
pub open spec fn json_hex_digit(n: int) -> char {
    if n < 10 {
        (n + 48) as char
    } else {
        (n + 87) as char
    }
}

/// How one character of a string is written: `"` and `\` escaped with `\`; backspace, form
/// feed, newline, carriage return and tab as `\b`, `\f`, `\n`, `\r`, `\t`; other characters
/// below U+0020 as `\u00` and two lowercase hexadecimal digits; every other character as it is.
pub open spec fn json_escape_char(c: char) -> Seq<char> {
    if c == '"' {
        seq!['\\', '"']
    } else if c == '\\' {
        seq!['\\', '\\']
    } else if c == '\n' {
        seq!['\\', 'n']
    } else if c == '\r' {
        seq!['\\', 'r']
    } else if c == '\t' {
        seq!['\\', 't']
    } else if (c as u32) == 8 {
        seq!['\\', 'b']
    } else if (c as u32) == 12 {
        seq!['\\', 'f']
    } else if (c as u32) < 32 {
        seq!['\\', 'u', '0', '0', json_hex_digit(((c as u32) / 16) as int), json_hex_digit(((c as u32) % 16) as int)]
    } else {
        seq![c]
    }
}

/// A string's characters, each written as `json_escape_char` writes it.
pub open spec fn json_escape(s: Seq<char>) -> Seq<char>
    decreases s.len(),
{
    if s.len() == 0 {
        Seq::empty()
    } else {
        json_escape(s.drop_last()) + json_escape_char(s.last())
    }
}

/// A string as a JSON string.
pub open spec fn json_quote(s: Seq<char>) -> Seq<char> {
    seq!['"'] + json_escape(s) + seq!['"']
}

/// The compact JSON text of a value: `null`, `true`, `false`, numbers as their text, strings
/// quoted, lists as `[a,b]` and mappings as `{"k":v}` in their order.
pub open spec fn json_text_of(m: ValueModel) -> Seq<char>
    decreases m,
{
    match m {
        ValueModel::Null => "null"@,
        ValueModel::Bool(b) => if b {
            "true"@
        } else {
            "false"@
        },
        ValueModel::Number(n) => n,
        ValueModel::Text(t) => json_quote(t),
        ValueModel::List(items) => seq!['['] + json_items(items) + seq![']'],
        ValueModel::Object(entries) => seq!['{'] + json_entries(entries) + seq!['}'],
    }
}

/// The items of a list, each as JSON, separated by `,`.
pub open spec fn json_items(items: Seq<ValueModel>) -> Seq<char>
    decreases items,
{
    if items.len() == 0 {
        Seq::empty()
    } else if items.len() == 1 {
        json_text_of(items[0])
    } else {
        json_items(items.drop_last()) + seq![','] + json_text_of(items.last())
    }
}

/// The entries of a mapping, each as `"key":value`, separated by `,`.
pub open spec fn json_entries(entries: Seq<(Seq<char>, ValueModel)>) -> Seq<char>
    decreases entries,
{
    if entries.len() == 0 {
        Seq::empty()
    } else if entries.len() == 1 {
        json_quote(entries[0].0) + seq![':'] + json_text_of(entries[0].1)
    } else {
        json_entries(entries.drop_last()) + seq![','] + json_quote(entries.last().0) + seq![':'] + json_text_of(
            entries.last().1,
        )
    }
}

fn hex_digit_char(n: u32) -> (c: char)
    requires
        n < 16,
    ensures
        c == json_hex_digit(n as int),
{
    let d: u8 = if n < 10 {
        (n + 48) as u8
    } else {
        (n + 87) as u8
    };
    d as char
}

/// Appends a string as a JSON string (see `json_quote`).
fn push_quoted(out: &mut Vec<char>, s: &str)
    ensures
        final(out)@ == old(out)@ + json_quote(s@),
{
    let cs = to_chars(s);
    let ghost o0 = out@;
    out.push('"');
    let mut i: usize = 0;
    assert(cs@.take(0) =~= Seq::<char>::empty());
    while i < cs.len()
        invariant
            cs@ == s@,
            i <= cs@.len(),
            out@ == o0 + seq!['"'] + json_escape(cs@.take(i as int)),
        decreases cs.len() - i,
    {
        let c = cs[i];
        let ghost before = out@;
        let code: u32 = c as u32;
        if c == '"' {
            out.push('\\');
            out.push('"');
        } else if c == '\\' {
            out.push('\\');
            out.push('\\');
        } else if c == '\n' {
            out.push('\\');
            out.push('n');
        } else if c == '\r' {
            out.push('\\');
            out.push('r');
        } else if c == '\t' {
            out.push('\\');
            out.push('t');
        } else if code == 8 {
            out.push('\\');
            out.push('b');
        } else if code == 12 {
            out.push('\\');
            out.push('f');
        } else if code < 32 {
            out.push('\\');
            out.push('u');
            out.push('0');
            out.push('0');
            out.push(hex_digit_char(code / 16));
            out.push(hex_digit_char(code % 16));
            assert(out@ =~= before + json_escape_char(c));
        } else {
            out.push(c);
            assert(out@ =~= before + json_escape_char(c));
        }
        assert(out@ =~= before + json_escape_char(c));
        assert(cs@.take(i + 1).drop_last() =~= cs@.take(i as int));
        assert(cs@.take(i + 1).last() == c);
        i = i + 1;
    }
    assert(cs@.take(cs@.len() as int) =~= cs@);
    out.push('"');
    assert(out@ =~= o0 + json_quote(s@));
}

/// Appends the compact JSON text of a value (see `json_text_of`).
pub fn push_json(out: &mut Vec<char>, value: &Value)
    ensures
        final(out)@ == old(out)@ + json_text_of(model(*value)),
    decreases value,
{
    let ghost o0 = out@;
    match value {
        Value::Null => append_str(out, "null"),
        Value::Bool(b) => {
            if *b {
                append_str(out, "true");
            } else {
                append_str(out, "false");
            }
        },
        Value::Number(n) => append_str(out, n.as_str()),
        Value::Text(t) => push_quoted(out, t.as_str()),
        Value::List(items) => {
            out.push('[');
            let mut i: usize = 0;
            assert(items@.take(0) =~= Seq::<Value>::empty());
            while i < items.len()
                invariant
                    *value == Value::List(*items),
                    i <= items@.len(),
                    out@ == o0 + seq!['['] + json_items(item_models(items@.take(i as int))),
                decreases items.len() - i,
            {
                proof {
                    assert(decreases_to!(*value => (*value)->List_0));
                    assert(decreases_to!((*value)->List_0 => (*value)->List_0@));
                    assert(decreases_to!((*value)->List_0@ => items@[i as int]));
                }
                let ghost t = items@.take(i + 1);
                assert(t.drop_last() =~= items@.take(i as int));
                assert(t.last() == items@[i as int]);
                let ghost ms = item_models(t);
                assert(ms.drop_last() == item_models(items@.take(i as int)));
                if i > 0 {
                    out.push(',');
                }
                push_json(out, &items[i]);
                proof {
                    if i == 0 {
                        assert(ms.len() == 1);
                        assert(ms[0] == model(items@[0]));
                    }
                    assert(out@ =~= o0 + seq!['['] + json_items(ms));
                }
                i = i + 1;
            }
            assert(items@.take(items@.len() as int) =~= items@);
            out.push(']');
            assert(out@ =~= o0 + json_text_of(model(*value)));
        },
        Value::Object(entries) => {
            out.push('{');
            let mut i: usize = 0;
            assert(entries@.take(0) =~= Seq::<(String, Value)>::empty());
            while i < entries.len()
                invariant
                    *value == Value::Object(*entries),
                    i <= entries@.len(),
                    out@ == o0 + seq!['{'] + json_entries(entry_models(entries@.take(i as int))),
                decreases entries.len() - i,
            {
                proof {
                    assert(decreases_to!(*value => (*value)->Object_0));
                    assert(decreases_to!((*value)->Object_0 => (*value)->Object_0@));
                    assert(decreases_to!((*value)->Object_0@ => entries@[i as int]));
                    assert(decreases_to!(entries@[i as int] => entries@[i as int].1));
                }
                let ghost t = entries@.take(i + 1);
                assert(t.drop_last() =~= entries@.take(i as int));
                assert(t.last() == entries@[i as int]);
                let ghost es = entry_models(t);
                assert(es.drop_last() == entry_models(entries@.take(i as int)));
                if i > 0 {
                    out.push(',');
                }
                push_quoted(out, entries[i].0.as_str());
                out.push(':');
                push_json(out, &entries[i].1);
                proof {
                    if i == 0 {
                        assert(es.len() == 1);
                        assert(es[0] == (entries@[0].0@, model(entries@[0].1)));
                    }
                    assert(out@ =~= o0 + seq!['{'] + json_entries(es));
                }
                i = i + 1;
            }
            assert(entries@.take(entries@.len() as int) =~= entries@);
            out.push('}');
            assert(out@ =~= o0 + json_text_of(model(*value)));
        },
    }
}

/// The compact JSON text of a value (see `json_text_of`), as `serde_json::to_string` writes it.
pub fn json_text(value: &Value) -> (r: String)
    ensures
        r@ == json_text_of(model(*value)),
{
    let mut out: Vec<char> = Vec::new();
    push_json(&mut out, value);
    assert(out@ =~= json_text_of(model(*value)));
    from_chars(out.as_slice())
}

} // verus!
