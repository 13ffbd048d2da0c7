//! The conversions between the camelCase names that claims use and the snake_case names
//! that Terraform variables and outputs use.
use vstd::prelude::*;
use crate::text::{from_chars, is_ascii_lower, is_ascii_upper, to_chars};

verus! {

pub open spec fn ascii_lower(c: char) -> char {
    if is_ascii_upper(c) {
        ((c as u32) + 32) as char
    } else {
        c
    }
}

pub open spec fn ascii_upper(c: char) -> char {
    if is_ascii_lower(c) {
        ((c as u32) - 32) as char
    } else {
        c
    }
}

/// snake_case of a name: every uppercase letter becomes its lowercase letter, preceded by
/// `_` unless it is the first character.
pub open spec fn snake_case(s: Seq<char>) -> Seq<char>
    decreases s.len(),
{
    if s.len() == 0 {
        Seq::empty()
    } else {
        let prev = snake_case(s.drop_last());
        let c = s.last();
        if is_ascii_upper(c) {
            if s.len() == 1 {
                prev.push(ascii_lower(c))
            } else {
                prev.push('_').push(ascii_lower(c))
            }
        } else {
            prev.push(c)
        }
    }
}

/// Whether the last character of `s` is an underscore that has not been consumed.
pub open spec fn camel_pending(s: Seq<char>) -> bool {
    s.len() > 0 && s.last() == '_'
}

/// camelCase of a name: every `_` is dropped and the letter after it becomes uppercase.
pub open spec fn camel_case(s: Seq<char>) -> Seq<char>
    decreases s.len(),
{
    if s.len() == 0 {
        Seq::empty()
    } else {
        let prev = camel_case(s.drop_last());
        let c = s.last();
        if c == '_' {
            prev
        } else if camel_pending(s.drop_last()) {
            prev.push(ascii_upper(c))
        } else {
            prev.push(c)
        }
    }
}

fn lower_char(c: char) -> (r: char)
    ensures
        r == ascii_lower(c),
{
    if 'A' <= c && c <= 'Z' {
        let v: u8 = ((c as u32) + 32) as u8;
        v as char
    } else {
        c
    }
}

fn upper_char(c: char) -> (r: char)
    ensures
        r == ascii_upper(c),
{
    if 'a' <= c && c <= 'z' {
        let v: u8 = ((c as u32) - 32) as u8;
        v as char
    } else {
        c
    }
}

pub fn to_snake_case(s: &str) -> (r: String)
    ensures
        r@ == snake_case(s@),
{
    let cs = to_chars(s);
    let mut out: Vec<char> = Vec::new();
    let mut i: usize = 0;
    while i < cs.len()
        invariant
            i <= cs@.len(),
            cs@ == s@,
            out@ == snake_case(cs@.take(i as int)),
        decreases cs.len() - i,
    {
        let c = cs[i];
        assert(cs@.take(i + 1).drop_last() =~= cs@.take(i as int));
        if 'A' <= c && c <= 'Z' {
            if i != 0 {
                out.push('_');
            }
            out.push(lower_char(c));
        } else {
            out.push(c);
        }
        i = i + 1;
    }
    assert(cs@.take(cs.len() as int) =~= cs@);
    from_chars(&out)
}

pub fn to_camel_case(s: &str) -> (r: String)
    ensures
        r@ == camel_case(s@),
{
    let cs = to_chars(s);
    let mut out: Vec<char> = Vec::new();
    let mut i: usize = 0;
    while i < cs.len()
        invariant
            i <= cs@.len(),
            cs@ == s@,
            out@ == camel_case(cs@.take(i as int)),
        decreases cs.len() - i,
    {
        let c = cs[i];
        assert(cs@.take(i + 1).drop_last() =~= cs@.take(i as int));
        if c == '_' {
        } else if i > 0 && cs[i - 1] == '_' {
            assert(cs@.take(i as int).last() == cs@[i - 1]);
            out.push(upper_char(c));
        } else {
            out.push(c);
        }
        i = i + 1;
    }
    assert(cs@.take(cs.len() as int) =~= cs@);
    from_chars(&out)
}

} // verus!
