//! Verified rendering of a structured value as one line of JSON text. The
//! spec functions here state the exact text produced, character by character.

use vstd::prelude::*;
use crate::json::{elems_view, fields_view, lemma_elems_view, lemma_fields_view, Json, JsonV};

verus! {

pub open spec fn dec_digit(n: int) -> char {
    if n == 0 {
        '0'
    } else if n == 1 {
        '1'
    } else if n == 2 {
        '2'
    } else if n == 3 {
        '3'
    } else if n == 4 {
        '4'
    } else if n == 5 {
        '5'
    } else if n == 6 {
        '6'
    } else if n == 7 {
        '7'
    } else if n == 8 {
        '8'
    } else {
        '9'
    }
}

pub open spec fn hex_digit(n: int) -> char {
    if n < 10 {
        dec_digit(n)
    } else if n == 10 {
        'a'
    } else if n == 11 {
        'b'
    } else if n == 12 {
        'c'
    } else if n == 13 {
        'd'
    } else if n == 14 {
        'e'
    } else {
        'f'
    }
}

/// The decimal text of a non-negative integer, no sign, no leading zero.
pub open spec fn dec_nat(n: int) -> Seq<char>
    recommends
        n >= 0,
    decreases n,
{
    if n < 10 {
        seq![dec_digit(n)]
    } else {
        dec_nat(n / 10) + seq![dec_digit(n % 10)]
    }
}

/// The decimal text of an integer: a `-` sign where negative.
pub open spec fn dec_int(i: int) -> Seq<char> {
    if i < 0 {
        seq!['-'] + dec_nat(-i)
    } else {
        dec_nat(i)
    }
}

/// The escape of one character inside a string literal: quote, backslash and
/// control characters are escaped, every other character stands as itself.
pub open spec fn esc_char(c: char) -> Seq<char> {
    if c == '"' {
        seq!['\\', '"']
    } else if c == '\\' {
        seq!['\\', '\\']
    } else if c == '\n' {
        seq!['\\', 'n']
    } else if c == '\r' {
        seq!['\\', 'r']
    } else if c == '\t' {
        seq!['\\', 't']
    } else if (c as u32) < 32 {
        seq!['\\', 'u', '0', '0', hex_digit(c as u32 as int / 16), hex_digit(c as u32 as int % 16)]
    } else {
        seq![c]
    }
}

pub open spec fn esc_str(s: Seq<char>) -> Seq<char>
    decreases s.len(),
{
    if s.len() == 0 {
        Seq::empty()
    } else {
        esc_char(s[0]) + esc_str(s.drop_first())
    }
}

/// A string literal: the escaped text between double quotes.
pub open spec fn str_lit(s: Seq<char>) -> Seq<char> {
    seq!['"'] + esc_str(s) + seq!['"']
}

/// The JSON text of a value.
pub open spec fn ser(v: JsonV) -> Seq<char>
    decreases v, 2int,
{
    match v {
        JsonV::Null => seq!['n', 'u', 'l', 'l'],
        JsonV::Bool(b) => if b {
            seq!['t', 'r', 'u', 'e']
        } else {
            seq!['f', 'a', 'l', 's', 'e']
        },
        JsonV::Int(i) => dec_int(i),
        JsonV::Num(s) => s,
        JsonV::Str(s) => str_lit(s),
        JsonV::Arr(es) => seq!['['] + ser_elems(es) + seq![']'],
        JsonV::Obj(fs) => seq!['{'] + ser_fields(fs) + seq!['}'],
    }
}

/// Array elements joined by commas.
pub open spec fn ser_elems(es: Seq<JsonV>) -> Seq<char>
    decreases es, 1int,
{
    if es.len() == 0 {
        Seq::empty()
    } else if es.len() == 1 {
        ser(es[0])
    } else {
        ser(es[0]) + seq![','] + ser_elems(es.drop_first())
    }
}

/// One `"key":value` field.
pub open spec fn ser_field(f: (Seq<char>, JsonV)) -> Seq<char>
    decreases f, 3int,
{
    str_lit(f.0) + seq![':'] + ser(f.1)
}

/// Object fields joined by commas.
pub open spec fn ser_fields(fs: Seq<(Seq<char>, JsonV)>) -> Seq<char>
    decreases fs, 1int,
{
    if fs.len() == 0 {
        Seq::empty()
    } else if fs.len() == 1 {
        ser_field(fs[0])
    } else {
        ser_field(fs[0]) + seq![','] + ser_fields(fs.drop_first())
    }
}

fn dec_digit_exec(n: u64) -> (c: char)
    requires
        n < 10,
    ensures
        c == dec_digit(n as int),
{
    match n {
        0 => '0',
        1 => '1',
        2 => '2',
        3 => '3',
        4 => '4',
        5 => '5',
        6 => '6',
        7 => '7',
        8 => '8',
        _ => '9',
    }
}

fn hex_digit_exec(n: u32) -> (c: char)
    requires
        n < 16,
    ensures
        c == hex_digit(n as int),
{
    match n {
        0 => '0',
        1 => '1',
        2 => '2',
        3 => '3',
        4 => '4',
        5 => '5',
        6 => '6',
        7 => '7',
        8 => '8',
        9 => '9',
        10 => 'a',
        11 => 'b',
        12 => 'c',
        13 => 'd',
        14 => 'e',
        _ => 'f',
    }
}

fn write_u64(n: u64, out: &mut Vec<char>)
    ensures
        final(out)@ == old(out)@ + dec_nat(n as int),
    decreases n,
{
    if n < 10 {
        out.push(dec_digit_exec(n));
    } else {
        write_u64(n / 10, out);
        out.push(dec_digit_exec(n % 10));
        proof {
            assert(final(out)@ =~= old(out)@ + dec_nat(n as int));
        }
    }
}

fn write_i64(i: i64, out: &mut Vec<char>)
    ensures
        final(out)@ == old(out)@ + dec_int(i as int),
{
    if i >= 0 {
        write_u64(i as u64, out);
    } else {
        out.push('-');
        let wide: i128 = -(i as i128);
        assert(0 < wide <= u64::MAX as i128);
        let m: u64 = wide as u64;
        write_u64(m, out);
        proof {
            assert(final(out)@ =~= old(out)@ + dec_int(i as int));
        }
    }
}

/// The characters of a string, in order.
pub fn str_chars(s: &str) -> (r: Vec<char>)
    ensures
        r@ == s@,
{
    let n = s.unicode_len();
    let mut r: Vec<char> = Vec::new();
    let mut i: usize = 0;
    while i < n
        invariant
            n == s@.len(),
            0 <= i <= n,
            r@ == s@.take(i as int),
        decreases n - i,
    {
        r.push(s.get_char(i));
        proof {
            assert(r@ =~= s@.take(i as int + 1));
        }
        i += 1;
    }
    proof {
        assert(s@.take(n as int) =~= s@);
    }
    r
}

proof fn lemma_esc_str_cat(a: Seq<char>, b: Seq<char>)
    ensures
        esc_str(a + b) == esc_str(a) + esc_str(b),
    decreases a.len(),
{
    if a.len() == 0 {
        assert(a + b =~= b);
        assert(esc_str(a) + esc_str(b) =~= esc_str(b));
    } else {
        assert((a + b).drop_first() =~= a.drop_first() + b);
        lemma_esc_str_cat(a.drop_first(), b);
        assert(esc_str(a + b) =~= esc_str(a) + esc_str(b));
    }
}

fn write_escaped(c: char, out: &mut Vec<char>)
    ensures
        final(out)@ == old(out)@ + esc_char(c),
{
    if c == '"' {
        out.push('\\');
        out.push('"');
    } else if c == '\\' {
        out.push('\\');
        out.push('\\');
    } else if c == '\n' {
        out.push('\\');
        out.push('n');
    } else if c == '\r' {
        out.push('\\');
        out.push('r');
    } else if c == '\t' {
        out.push('\\');
        out.push('t');
    } else if (c as u32) < 32 {
        out.push('\\');
        out.push('u');
        out.push('0');
        out.push('0');
        out.push(hex_digit_exec((c as u32) / 16));
        out.push(hex_digit_exec((c as u32) % 16));
    } else {
        out.push(c);
    }
    proof {
        assert(final(out)@ =~= old(out)@ + esc_char(c));
    }
}

fn write_str_lit(s: &String, out: &mut Vec<char>)
    ensures
        final(out)@ == old(out)@ + str_lit(s@),
{
    let cs = str_chars(s.as_str());
    out.push('"');
    let mut i: usize = 0;
    while i < cs.len()
        invariant
            cs@ == s@,
            0 <= i <= cs@.len(),
            out@ == old(out)@ + seq!['"'] + esc_str(s@.take(i as int)),
        decreases cs@.len() - i,
    {
        proof {
            let c = s@[i as int];
            assert(s@.take(i as int + 1) =~= s@.take(i as int) + seq![c]);
            lemma_esc_str_cat(s@.take(i as int), seq![c]);
            assert(seq![c].drop_first() =~= Seq::<char>::empty());
            assert(esc_str(seq![c]) == esc_char(c) + esc_str(Seq::<char>::empty()));
            assert(esc_str(seq![c]) =~= esc_char(c));
        }
        write_escaped(cs[i], out);
        proof {
            assert(out@ =~= old(out)@ + seq!['"'] + esc_str(s@.take(i as int + 1)));
        }
        i += 1;
    }
    out.push('"');
    proof {
        assert(s@.take(s@.len() as int) =~= s@);
        assert(final(out)@ =~= old(out)@ + str_lit(s@));
    }
}

/// Write the JSON text of `v` after what `out` already holds.
pub fn write_json(v: &Json, out: &mut Vec<char>)
    ensures
        final(out)@ == old(out)@ + ser(v@),
    decreases v, 2int,
{
    match v {
        Json::Null => {
            out.push('n');
            out.push('u');
            out.push('l');
            out.push('l');
            proof {
                assert(final(out)@ =~= old(out)@ + ser(v@));
            }
        },
        Json::Bool(b) => {
            if *b {
                out.push('t');
                out.push('r');
                out.push('u');
                out.push('e');
            } else {
                out.push('f');
                out.push('a');
                out.push('l');
                out.push('s');
                out.push('e');
            }
            proof {
                assert(final(out)@ =~= old(out)@ + ser(v@));
            }
        },
        Json::Int(i) => {
            write_i64(*i, out);
        },
        Json::Num(s) => {
            let cs = str_chars(s.as_str());
            let mut j: usize = 0;
            while j < cs.len()
                invariant
                    cs@ == s@,
                    0 <= j <= cs@.len(),
                    out@ == old(out)@ + s@.take(j as int),
                decreases cs@.len() - j,
            {
                out.push(cs[j]);
                proof {
                    assert(out@ =~= old(out)@ + s@.take(j as int + 1));
                }
                j += 1;
            }
            proof {
                assert(s@.take(s@.len() as int) =~= s@);
            }
        },
        Json::Str(s) => {
            write_str_lit(s, out);
        },
        Json::Arr(es) => {
            out.push('[');
            write_elems(es, out);
            out.push(']');
            proof {
                assert(final(out)@ =~= old(out)@ + ser(v@));
            }
        },
        Json::Obj(fs) => {
            out.push('{');
            write_fields(fs, out);
            out.push('}');
            proof {
                assert(final(out)@ =~= old(out)@ + ser(v@));
            }
        },
    }
}

fn write_elems(es: &Vec<Json>, out: &mut Vec<char>)
    ensures
        final(out)@ == old(out)@ + ser_elems(elems_view(es@)),
    decreases es, 1int,
{
    proof {
        lemma_elems_view(es@);
    }
    if es.len() == 0 {
        proof {
            assert(final(out)@ =~= old(out)@ + ser_elems(elems_view(es@)));
        }
    } else {
        write_elems_from(es, 0, out);
        proof {
            assert(es@.skip(0) =~= es@);
            assert(elems_view(es@).skip(0) =~= elems_view(es@));
        }
    }
}

fn write_elems_from(es: &Vec<Json>, from: usize, out: &mut Vec<char>)
    requires
        from < es@.len(),
    ensures
        final(out)@ == old(out)@ + ser_elems(elems_view(es@).skip(from as int)),
    decreases es, 0int, es@.len() - from,
{
    proof {
        lemma_elems_view(es@);
        lemma_elems_view_skip(es@, from as int);
    }
    let ghost tail = elems_view(es@).skip(from as int);
    write_json(&es[from], out);
    if es.len() - from > 1 {
        out.push(',');
        write_elems_from(es, from + 1, out);
        proof {
            assert(tail.drop_first() =~= elems_view(es@).skip(from as int + 1));
            assert(ser_elems(tail) == ser(tail[0]) + seq![','] + ser_elems(tail.drop_first()));
            assert(final(out)@ =~= old(out)@ + ser_elems(tail));
        }
    } else {
        proof {
            assert(tail.len() == 1);
            assert(final(out)@ =~= old(out)@ + ser_elems(tail));
        }
    }
}

proof fn lemma_elems_view_skip(es: Seq<Json>, from: int)
    requires
        0 <= from <= es.len(),
    ensures
        elems_view(es).skip(from) =~= elems_view(es.skip(from)),
{
    lemma_elems_view(es);
    lemma_elems_view(es.skip(from));
}

fn write_fields(fs: &Vec<(String, Json)>, out: &mut Vec<char>)
    ensures
        final(out)@ == old(out)@ + ser_fields(fields_view(fs@)),
    decreases fs, 1int,
{
    proof {
        lemma_fields_view(fs@);
    }
    if fs.len() == 0 {
        proof {
            assert(final(out)@ =~= old(out)@ + ser_fields(fields_view(fs@)));
        }
    } else {
        write_fields_from(fs, 0, out);
        proof {
            assert(fields_view(fs@).skip(0) =~= fields_view(fs@));
        }
    }
}

fn write_fields_from(fs: &Vec<(String, Json)>, from: usize, out: &mut Vec<char>)
    requires
        from < fs@.len(),
    ensures
        final(out)@ == old(out)@ + ser_fields(fields_view(fs@).skip(from as int)),
    decreases fs, 0int, fs@.len() - from,
{
    proof {
        lemma_fields_view(fs@);
    }
    let ghost tail = fields_view(fs@).skip(from as int);
    write_str_lit(&fs[from].0, out);
    out.push(':');
    write_json(&fs[from].1, out);
    proof {
        assert(tail[0] == (fs@[from as int].0@, fs@[from as int].1.deep()));
        assert(out@ =~= old(out)@ + ser_field(tail[0]));
    }
    if fs.len() - from > 1 {
        out.push(',');
        write_fields_from(fs, from + 1, out);
        proof {
            assert(tail.drop_first() =~= fields_view(fs@).skip(from as int + 1));
            assert(ser_fields(tail) == ser_field(tail[0]) + seq![','] + ser_fields(tail.drop_first()));
            assert(final(out)@ =~= old(out)@ + ser_fields(tail));
        }
    } else {
        proof {
            assert(tail.len() == 1);
            assert(final(out)@ =~= old(out)@ + ser_fields(tail));
        }
    }
}

/// Relies on `String`'s `FromIterator<char>`: collecting characters builds
/// the string that holds exactly those characters in order.
#[verifier::external_body]
fn chars_to_string(v: &Vec<char>) -> (r: String)
    ensures
        r@ == v@,
{
    v.iter().collect()
}

/// The JSON text of a value, as a `String`.
pub fn render(v: &Json) -> (r: String)
    ensures
        r@ == ser(v@),
{
    let mut out: Vec<char> = Vec::new();
    write_json(v, &mut out);
    chars_to_string(&out)
}

} // verus!
