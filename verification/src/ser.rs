//! The serializer: renders a value to structured text, compact or pretty
//! with a configurable indent width, and an optional quote-style pass that
//! turns the structural double quotes into single quotes without touching
//! escaped quotes inside string content.
use vstd::prelude::*;

use crate::text::chars_to_string;
use crate::text::dec_digits;
use crate::text::dec_int;
use crate::text::digit_char;
use crate::text::push_i64;
use crate::text::push_u64;
use crate::text::str_to_chars;
use crate::value::NumberModel;
use crate::value::JsonValue;
use crate::value::ValueModel;
use crate::value::elems_model;
use crate::value::fields_model;
use crate::value::lemma_elem_size;
use crate::value::lemma_elems_model_index;
use crate::value::lemma_elems_model_len;
use crate::value::lemma_field_size;
use crate::value::lemma_fields_model_index;
use crate::value::lemma_fields_model_len;
use crate::value::value_model;
use crate::value::value_size;

verus! {

broadcast use {
    crate::value::lemma_elems_model_len,
    crate::value::lemma_elems_model_index,
    crate::value::lemma_fields_model_len,
    crate::value::lemma_fields_model_index,
};

/// The hexadecimal digit character for one digit value.
pub open spec fn hex_digit(d: int) -> char {
    if d < 10 {
        digit_char(d)
    } else if d == 10 {
        'a'
    } else if d == 11 {
        'b'
    } else if d == 12 {
        'c'
    } else if d == 13 {
        'd'
    } else if d == 14 {
        'e'
    } else {
        'f'
    }
}

/// How one character appears inside a quoted string: quote and backslash are
/// escaped, common control characters use their short escapes, the remaining
/// control characters a hexadecimal escape, everything else is verbatim.
pub open spec fn esc_char(c: char) -> Seq<char> {
    if c == '"' {
        seq!['\\', '"']
    } else if c == '\\' {
        seq!['\\', '\\']
    } else if c == '\u{8}' {
        seq!['\\', 'b']
    } else if c == '\t' {
        seq!['\\', 't']
    } else if c == '\n' {
        seq!['\\', 'n']
    } else if c == '\u{c}' {
        seq!['\\', 'f']
    } else if c == '\r' {
        seq!['\\', 'r']
    } else if (c as u32) < 32 {
        seq!['\\', 'u', '0', '0', hex_digit(c as u32 as int / 16), hex_digit(c as u32 as int % 16)]
    } else {
        seq![c]
    }
}

/// The escaped body of a string.
pub open spec fn escape(s: Seq<char>) -> Seq<char>
    decreases s.len(),
{
    if s.len() == 0 {
        Seq::empty()
    } else {
        esc_char(s[0]) + escape(s.drop_first())
    }
}

/// A quoted, escaped string.
pub open spec fn quoted(s: Seq<char>) -> Seq<char> {
    seq!['"'] + escape(s) + seq!['"']
}

/// The rendering of a numeric literal.
pub open spec fn num_text(n: NumberModel) -> Seq<char> {
    match n {
        NumberModel::Int(i) => dec_int(i),
        NumberModel::Float(s) => s,
    }
}

/// `n` spaces.
pub open spec fn spaces(n: nat) -> Seq<char> {
    Seq::new(n, |i: int| ' ')
}

/// The rendering of one value. `pad` is the indentation already owed to the
/// enclosing nesting level; `ind` is the indent width per further level.
pub open spec fn render(m: ValueModel, pretty: bool, ind: nat, pad: Seq<char>) -> Seq<char>
    decreases m, 1int,
{
    match m {
        ValueModel::Null => seq!['n', 'u', 'l', 'l'],
        ValueModel::Bool(b) => if b {
            seq!['t', 'r', 'u', 'e']
        } else {
            seq!['f', 'a', 'l', 's', 'e']
        },
        ValueModel::Number(n) => num_text(n),
        ValueModel::Str(s) => quoted(s),
        ValueModel::Array(es) => if es.len() == 0 {
            seq!['[', ']']
        } else if pretty {
            seq!['[', '\n'] + render_elems(es, true, ind, pad + spaces(ind), true) + seq!['\n']
                + pad + seq![']']
        } else {
            seq!['['] + render_elems(es, false, ind, pad, true) + seq![']']
        },
        ValueModel::Object(fs) => if fs.len() == 0 {
            seq!['{', '}']
        } else if pretty {
            seq!['{', '\n'] + render_fields(fs, true, ind, pad + spaces(ind), true) + seq!['\n']
                + pad + seq!['}']
        } else {
            seq!['{'] + render_fields(fs, false, ind, pad, true) + seq!['}']
        },
    }
}

/// The separator written before an element: the first pretty element is
/// preceded by its indentation, later ones by a comma (and, pretty, a line
/// break and indentation).
pub open spec fn elem_sep(pretty: bool, pad: Seq<char>, first: bool) -> Seq<char> {
    if first {
        if pretty {
            pad
        } else {
            Seq::empty()
        }
    } else {
        if pretty {
            seq![',', '\n'] + pad
        } else {
            seq![',']
        }
    }
}

/// The rendering of array elements, `pad` being the elements' own level.
pub open spec fn render_elems(
    es: Seq<ValueModel>,
    pretty: bool,
    ind: nat,
    pad: Seq<char>,
    first: bool,
) -> Seq<char>
    decreases es, 0int,
{
    if es.len() == 0 {
        Seq::empty()
    } else {
        elem_sep(pretty, pad, first) + render(es[0], pretty, ind, pad) + render_elems(
            es.drop_first(),
            pretty,
            ind,
            pad,
            false,
        )
    }
}

/// The rendering of object fields: quoted key, colon, value.
pub open spec fn render_fields(
    fs: Seq<(Seq<char>, ValueModel)>,
    pretty: bool,
    ind: nat,
    pad: Seq<char>,
    first: bool,
) -> Seq<char>
    decreases fs, 0int,
{
    if fs.len() == 0 {
        Seq::empty()
    } else {
        elem_sep(pretty, pad, first) + quoted(fs[0].0) + (if pretty {
            seq![':', ' ']
        } else {
            seq![':']
        }) + render(fs[0].1, pretty, ind, pad) + render_fields(
            fs.drop_first(),
            pretty,
            ind,
            pad,
            false,
        )
    }
}

/// The quote-style pass: a left-to-right scan that skips over every escape
/// pair, replaces each remaining structural double quote with a single
/// quote, and keeps everything else.
pub open spec fn swap_quotes(s: Seq<char>) -> Seq<char>
    decreases s.len(),
{
    if s.len() == 0 {
        Seq::empty()
    } else if s[0] == '\\' && s.len() >= 2 {
        seq![s[0], s[1]] + swap_quotes(s.skip(2))
    } else if s[0] == '"' {
        seq!['\''] + swap_quotes(s.drop_first())
    } else {
        seq![s[0]] + swap_quotes(s.drop_first())
    }
}

/// The complete output of the serializer for one value.
pub open spec fn rendered(m: ValueModel, pretty: bool, ind: nat, single_quotes: bool) -> Seq<
    char,
> {
    if single_quotes {
        swap_quotes(render(m, pretty, ind, Seq::empty()))
    } else {
        render(m, pretty, ind, Seq::empty())
    }
}

/// The character a short escape denotes.
pub open spec fn unesc_short(c: char) -> Option<char> {
    if c == '"' {
        Some('"')
    } else if c == '\\' {
        Some('\\')
    } else if c == 'b' {
        Some('\u{8}')
    } else if c == 't' {
        Some('\t')
    } else if c == 'n' {
        Some('\n')
    } else if c == 'f' {
        Some('\u{c}')
    } else if c == 'r' {
        Some('\r')
    } else {
        None
    }
}

/// The numeric value of one lowercase hexadecimal digit, or 16 for any
/// other character.
pub open spec fn hex_val(c: char) -> nat {
    if c == 'a' {
        10
    } else if c == 'b' {
        11
    } else if c == 'c' {
        12
    } else if c == 'd' {
        13
    } else if c == 'e' {
        14
    } else if c == 'f' {
        15
    } else if c == '0' || c == '1' || c == '2' || c == '3' || c == '4' || c == '5' || c == '6'
        || c == '7' || c == '8' || c == '9' {
        crate::text::digit_val(c)
    } else {
        16
    }
}

/// The control character with the given code below 32.
pub open spec fn control_char(d: int) -> char {
    if d == 0 {
        '\u{0}'
    } else if d == 1 {
        '\u{1}'
    } else if d == 2 {
        '\u{2}'
    } else if d == 3 {
        '\u{3}'
    } else if d == 4 {
        '\u{4}'
    } else if d == 5 {
        '\u{5}'
    } else if d == 6 {
        '\u{6}'
    } else if d == 7 {
        '\u{7}'
    } else if d == 8 {
        '\u{8}'
    } else if d == 9 {
        '\u{9}'
    } else if d == 10 {
        '\u{a}'
    } else if d == 11 {
        '\u{b}'
    } else if d == 12 {
        '\u{c}'
    } else if d == 13 {
        '\u{d}'
    } else if d == 14 {
        '\u{e}'
    } else if d == 15 {
        '\u{f}'
    } else if d == 16 {
        '\u{10}'
    } else if d == 17 {
        '\u{11}'
    } else if d == 18 {
        '\u{12}'
    } else if d == 19 {
        '\u{13}'
    } else if d == 20 {
        '\u{14}'
    } else if d == 21 {
        '\u{15}'
    } else if d == 22 {
        '\u{16}'
    } else if d == 23 {
        '\u{17}'
    } else if d == 24 {
        '\u{18}'
    } else if d == 25 {
        '\u{19}'
    } else if d == 26 {
        '\u{1a}'
    } else if d == 27 {
        '\u{1b}'
    } else if d == 28 {
        '\u{1c}'
    } else if d == 29 {
        '\u{1d}'
    } else if d == 30 {
        '\u{1e}'
    } else {
        '\u{1f}'
    }
}

/// The decoder for escaped string content: the inverse scan of `escape`.
/// A bare structural quote or a malformed escape decodes to nothing.
pub open spec fn unescape(s: Seq<char>) -> Option<Seq<char>>
    decreases s.len(),
{
    if s.len() == 0 {
        Some(Seq::empty())
    } else if s[0] == '\\' {
        if s.len() >= 2 && s[1] == 'u' {
            if s.len() >= 6 && s[2] == '0' && s[3] == '0' && hex_val(s[4]) < 16 && hex_val(s[5])
                < 16 {
                match unescape(s.skip(6)) {
                    Some(t) => Some(
                        seq![control_char((hex_val(s[4]) * 16 + hex_val(s[5])) as int)] + t,
                    ),
                    None => None,
                }
            } else {
                None
            }
        } else if s.len() >= 2 && unesc_short(s[1]) is Some {
            match unescape(s.skip(2)) {
                Some(t) => Some(seq![unesc_short(s[1])->Some_0] + t),
                None => None,
            }
        } else {
            None
        }
    } else if s[0] == '"' {
        None
    } else {
        match unescape(s.drop_first()) {
            Some(t) => Some(seq![s[0]] + t),
            None => None,
        }
    }
}

/// Escaped string content decodes back to exactly the original characters:
/// the string side of the serialize-then-parse round trip.
pub proof fn lemma_unescape_escape(s: Seq<char>)
    ensures
        unescape(escape(s)) == Some(s),
    decreases s.len(),
{
    if s.len() == 0 {
        assert(escape(s) =~= Seq::<char>::empty());
    } else {
        let c = s[0];
        let e = esc_char(c);
        let rest = escape(s.drop_first());
        let whole = e + rest;
        lemma_unescape_escape(s.drop_first());
        assert(escape(s) =~= whole);
        if c == '"' || c == '\\' || c == '\u{8}' || c == '\t' || c == '\n' || c == '\u{c}' || c
            == '\r' {
            assert(whole[0] == '\\');
            assert(whole[1] == e[1]);
            assert(whole.len() >= 2);
            assert(e[1] != 'u');
            assert(unesc_short(e[1]) == Some(c));
            assert(whole.skip(2) =~= rest);
            assert(seq![c] + s.drop_first() =~= s);
        } else if (c as u32) < 32 {
            let code = c as u32 as int;
            let h1 = hex_digit(code / 16);
            let h2 = hex_digit(code % 16);
            assert(whole[0] == '\\');
            assert(whole[1] == 'u');
            assert(whole[2] == '0');
            assert(whole[3] == '0');
            assert(whole[4] == h1);
            assert(whole[5] == h2);
            assert(whole.len() >= 6);
            assert(0 <= code < 32);
            assert(hex_val(h1) == code / 16 && hex_val(h1) < 16);
            assert(hex_val(h2) == code % 16 && hex_val(h2) < 16);
            assert(hex_val(h1) * 16 + hex_val(h2) == code);
            assert(control_char(code) as u32 == code);
            vstd::utf8::char_u32_cast(c, c as u32);
            vstd::utf8::char_u32_cast(control_char(code), control_char(code) as u32);
            assert(control_char(code) == c);
            assert(whole.skip(6) =~= rest);
            assert(seq![c] + s.drop_first() =~= s);
        } else {
            assert(whole[0] == c);
            assert(c != '\\' && c != '"');
            assert(whole.drop_first() =~= rest);
            assert(seq![c] + s.drop_first() =~= s);
        }
    }
}

/// A decimal digit.
pub open spec fn is_digit(c: char) -> bool {
    '0' <= c && c <= '9'
}

/// A non-empty run of decimal digits.
pub open spec fn all_digits(s: Seq<char>) -> bool {
    s.len() > 0 && forall|i: int| 0 <= i < s.len() ==> is_digit(#[trigger] s[i])
}

/// An integer rendering: digits, with an optional leading minus sign.
pub open spec fn int_token(s: Seq<char>) -> bool {
    all_digits(s) || (s.len() >= 2 && s[0] == '-' && all_digits(s.drop_first()))
}

/// The integer an integer rendering reads back as.
pub open spec fn int_token_value(s: Seq<char>) -> int
    recommends
        int_token(s),
{
    if s.len() > 0 && s[0] == '-' {
        -(crate::text::dec_value(s.drop_first()) as int)
    } else {
        crate::text::dec_value(s) as int
    }
}

/// The decoder for one numeric rendering: an integer token reads back as an
/// integer, any other numeric token as the floating-point number it spells.
pub open spec fn decode_number(s: Seq<char>) -> Option<NumberModel> {
    if int_token(s) {
        Some(NumberModel::Int(int_token_value(s)))
    } else if crate::value::number_token(s) {
        Some(NumberModel::Float(s))
    } else {
        None
    }
}

/// The decoder for the rendering of one scalar document: the inverse of
/// `render` on values without arrays or objects.
pub open spec fn decode_scalar(s: Seq<char>) -> Option<ValueModel> {
    if s.len() == 0 {
        None
    } else if s[0] == '"' {
        if s.len() >= 2 && s.last() == '"' {
            match unescape(s.subrange(1, s.len() - 1)) {
                Some(t) => Some(ValueModel::Str(t)),
                None => None,
            }
        } else {
            None
        }
    } else if s == seq!['n', 'u', 'l', 'l'] {
        Some(ValueModel::Null)
    } else if s == seq!['t', 'r', 'u', 'e'] {
        Some(ValueModel::Bool(true))
    } else if s == seq!['f', 'a', 'l', 's', 'e'] {
        Some(ValueModel::Bool(false))
    } else {
        match decode_number(s) {
            Some(n) => Some(ValueModel::Number(n)),
            None => None,
        }
    }
}

/// Decimal renderings consist of digits.
proof fn lemma_dec_digits_are_digits(n: nat)
    ensures
        all_digits(dec_digits(n)),
    decreases n,
{
    if n < 10 {
        assert(is_digit(digit_char(n as int)));
        assert(seq![digit_char(n as int)][0] == digit_char(n as int));
    } else {
        assert(n / 10 < n) by (nonlinear_arith)
            requires
                n >= 10,
        ;
        lemma_dec_digits_are_digits(n / 10);
        let whole = dec_digits(n / 10).push(digit_char((n % 10) as int));
        assert forall|i: int| 0 <= i < whole.len() implies is_digit(#[trigger] whole[i]) by {
            if i < dec_digits(n / 10).len() {
                assert(is_digit(dec_digits(n / 10)[i]));
            } else {
                assert(whole[i] == digit_char((n % 10) as int));
            }
        }
    }
}

/// An integer rendering decodes back to the integer it renders.
proof fn lemma_decode_number_int(i: int)
    ensures
        decode_number(dec_int(i)) == Some(NumberModel::Int(i)),
{
    if i < 0 {
        let s = seq!['-'] + dec_digits((-i) as nat);
        lemma_dec_digits_are_digits((-i) as nat);
        assert(s[0] == '-');
        assert(s.drop_first() =~= dec_digits((-i) as nat));
        assert(!is_digit('-'));
        assert(!all_digits(s));
        assert(int_token(s));
        crate::text::lemma_dec_digits_roundtrip((-i) as nat);
    } else {
        let s = dec_int(i);
        lemma_dec_digits_are_digits(i as nat);
        assert(is_digit(s[0]));
        assert(s[0] != '-');
        crate::text::lemma_dec_digits_roundtrip(i as nat);
    }
}

/// A floating-point rendering decodes back to itself: its decimal point or
/// exponent keeps it from reading as an integer.
proof fn lemma_decode_number_float(s: Seq<char>)
    requires
        crate::value::number_token(s),
        crate::value::float_marked(s),
    ensures
        decode_number(s) == Some(NumberModel::Float(s)),
{
    let k = choose|i: int|
        0 <= i < s.len() && ((#[trigger] s[i]) == '.' || s[i] == 'e' || s[i] == 'E');
    assert(!is_digit(s[k]));
    if all_digits(s) {
        assert(is_digit(s[k]));
    }
    if s.len() >= 2 && s[0] == '-' && all_digits(s.drop_first()) {
        if k == 0 {
            assert(s[0] == '-');
        } else {
            assert(is_digit(s.drop_first()[k - 1]));
        }
    }
    assert(!int_token(s));
}

/// The rendering of any well-formed scalar document — null, a boolean, a
/// number or a string — decodes back to exactly that value, whatever the
/// formatting options: the scalar part of the serialize-then-parse round
/// trip.
pub proof fn lemma_decode_scalar_roundtrip(m: ValueModel, pretty: bool, ind: nat, pad: Seq<char>)
    requires
        crate::value::wf(m),
        !(m is Array),
        !(m is Object),
    ensures
        decode_scalar(render(m, pretty, ind, pad)) == Some(m),
{
    match m {
        ValueModel::Null => {
            let s = seq!['n', 'u', 'l', 'l'];
            assert(s[0] == 'n');
        },
        ValueModel::Bool(b) => {
            if b {
                let s = seq!['t', 'r', 'u', 'e'];
                assert(s[0] == 't');
                assert(s != seq!['n', 'u', 'l', 'l']);
            } else {
                let s = seq!['f', 'a', 'l', 's', 'e'];
                assert(s[0] == 'f');
                assert(s != seq!['n', 'u', 'l', 'l']);
                assert(s != seq!['t', 'r', 'u', 'e']);
            }
        },
        ValueModel::Str(t) => {
            let s = quoted(t);
            assert(s =~= seq!['"'] + (escape(t) + seq!['"']));
            assert(s[0] == '"');
            assert(s.last() == '"');
            assert(s.len() >= 2);
            assert(s.subrange(1, s.len() - 1) =~= escape(t));
            lemma_unescape_escape(t);
        },
        ValueModel::Number(n) => {
            let s = num_text(n);
            match n {
                NumberModel::Int(i) => {
                    lemma_decode_number_int(i);
                    if i < 0 {
                        assert(s[0] == '-');
                    } else {
                        lemma_dec_digits_are_digits(i as nat);
                        assert(is_digit(s[0]));
                    }
                    assert(s[0] != '"');
                    assert(s != seq!['n', 'u', 'l', 'l']);
                    assert(s != seq!['t', 'r', 'u', 'e']);
                    assert(s != seq!['f', 'a', 'l', 's', 'e']);
                },
                NumberModel::Float(text) => {
                    lemma_decode_number_float(text);
                    assert(crate::value::number_char(text[0]));
                    assert(text[0] != '"');
                    assert(text != seq!['n', 'u', 'l', 'l']);
                    assert(text != seq!['t', 'r', 'u', 'e']);
                    assert(text != seq!['f', 'a', 'l', 's', 'e']);
                },
            }
        },
        _ => {},
    }
}

/// The quote swap keeps a leading character that is neither a quote nor a
/// backslash.
proof fn lemma_swap_single(c: char, t: Seq<char>)
    requires
        c != '"',
        c != '\\',
    ensures
        swap_quotes(seq![c] + t) == seq![c] + swap_quotes(t),
{
    let s = seq![c] + t;
    assert(s[0] == c);
    assert(s.drop_first() =~= t);
}

/// The quote swap passes a leading escape pair through unchanged.
proof fn lemma_swap_pair(x: char, t: Seq<char>)
    ensures
        swap_quotes(seq!['\\', x] + t) == seq!['\\', x] + swap_quotes(t),
{
    let s = seq!['\\', x] + t;
    assert(s[0] == '\\');
    assert(s[1] == x);
    assert(s.len() >= 2);
    assert(s.skip(2) =~= t);
    assert(seq![s[0], s[1]] =~= seq!['\\', x]);
}

/// The quote swap turns a leading structural quote into a single quote.
proof fn lemma_swap_quote_head(t: Seq<char>)
    ensures
        swap_quotes(seq!['"'] + t) == seq!['\''] + swap_quotes(t),
{
    let s = seq!['"'] + t;
    assert(s[0] == '"');
    assert(s.drop_first() =~= t);
}

/// Escaped string content passes through the quote swap unchanged: every
/// escape pair is skipped and no unescaped quote or backslash occurs in it.
proof fn lemma_swap_escape(s: Seq<char>, rest: Seq<char>)
    ensures
        swap_quotes(escape(s) + rest) == escape(s) + swap_quotes(rest),
    decreases s.len(),
{
    if s.len() == 0 {
        assert(escape(s) + rest =~= rest);
        assert(escape(s) + swap_quotes(rest) =~= swap_quotes(rest));
    } else {
        let c = s[0];
        let e = esc_char(c);
        let tail = escape(s.drop_first()) + rest;
        lemma_swap_escape(s.drop_first(), rest);
        assert(escape(s) + rest =~= e + tail);
        if c == '"' || c == '\\' || c == '\u{8}' || c == '\t' || c == '\n' || c == '\u{c}' || c
            == '\r' {
            assert(e =~= seq![e[0], e[1]]);
            assert(e[0] == '\\');
            lemma_swap_pair(e[1], tail);
            assert(seq!['\\', e[1]] + tail =~= e + tail);
        } else if (c as u32) < 32 {
            let h1 = hex_digit(c as u32 as int / 16);
            let h2 = hex_digit(c as u32 as int % 16);
            let t4 = seq![h2] + tail;
            let t3 = seq![h1] + t4;
            let t2 = seq!['0'] + t3;
            let t1 = seq!['0'] + t2;
            assert(e + tail =~= seq!['\\', 'u'] + t1);
            lemma_swap_pair('u', t1);
            lemma_swap_single('0', t2);
            lemma_swap_single('0', t3);
            assert(h1 != '"' && h1 != '\\');
            assert(h2 != '"' && h2 != '\\');
            lemma_swap_single(h1, t4);
            lemma_swap_single(h2, tail);
            assert(seq!['\\', 'u'] + (seq!['0'] + (seq!['0'] + (seq![h1] + (seq![h2]
                + swap_quotes(tail))))) =~= e + swap_quotes(tail));
            assert(escape(s) + swap_quotes(rest) =~= e + swap_quotes(tail));
        } else {
            assert(e =~= seq![c]);
            lemma_swap_single(c, tail);
            assert(seq![c] + tail =~= e + tail);
        }
        assert(escape(s) + swap_quotes(rest) =~= e + swap_quotes(tail));
    }
}

/// The single-quote rendering of a string value: the structural delimiters
/// become single quotes while the escaped content — embedded escaped quotes
/// included — stays exactly the escape of the string.
pub proof fn lemma_single_quote_string(s: Seq<char>, pretty: bool, ind: nat)
    ensures
        rendered(ValueModel::Str(s), pretty, ind, true) == seq!['\''] + escape(s) + seq!['\''],
{
    let q = seq!['"'];
    assert(quoted(s) =~= q + (escape(s) + q));
    lemma_swap_quote_head(escape(s) + q);
    lemma_swap_escape(s, q);
    assert(q =~= seq!['"'] + Seq::<char>::empty());
    lemma_swap_quote_head(Seq::<char>::empty());
    assert(swap_quotes(Seq::<char>::empty()) == Seq::<char>::empty());
    assert(swap_quotes(q) =~= seq!['\'']);
    assert(seq!['\''] + (escape(s) + seq!['\'']) =~= seq!['\''] + escape(s) + seq!['\'']);
}

/// Pretty output puts the first key of a one-level object behind exactly the
/// configured indent width of spaces.
pub proof fn lemma_pretty_first_field_indent(fs: Seq<(Seq<char>, ValueModel)>, ind: nat)
    requires
        fs.len() > 0,
    ensures
        render(ValueModel::Object(fs), true, ind, Seq::empty()) == seq!['{', '\n'] + spaces(ind)
            + quoted(fs[0].0) + seq![':', ' '] + render(fs[0].1, true, ind, spaces(ind))
            + render_fields(fs.drop_first(), true, ind, spaces(ind), false) + seq!['\n']
            + seq!['}'],
{
    let pad2 = Seq::<char>::empty() + spaces(ind);
    assert(pad2 =~= spaces(ind));
    assert(elem_sep(true, spaces(ind), true) == spaces(ind));
    assert(seq!['{', '\n'] + render_fields(fs, true, ind, spaces(ind), true) + seq!['\n']
        + Seq::<char>::empty() + seq!['}'] =~= seq!['{', '\n'] + spaces(ind) + quoted(fs[0].0)
        + seq![':', ' '] + render(fs[0].1, true, ind, spaces(ind)) + render_fields(
        fs.drop_first(),
        true,
        ind,
        spaces(ind),
        false,
    ) + seq!['\n'] + seq!['}']);
}

/// Append a copy of every character of `src`.
#[verifier::loop_isolation(false)]
fn append_copies(out: &mut Vec<char>, src: &Vec<char>)
    ensures
        final(out)@ == old(out)@ + src@,
{
    let mut i: usize = 0;
    while i < src.len()
        invariant
            i <= src@.len(),
            out@ == old(out)@ + src@.take(i as int),
        decreases src@.len() - i,
    {
        out.push(src[i]);
        proof {
            assert(src@.take(i as int).push(src@[i as int]) =~= src@.take(i as int + 1));
        }
        i += 1;
    }
    proof {
        assert(src@.take(src@.len() as int) =~= src@);
    }
}

/// The hexadecimal digit character for one digit.
fn hex_of(d: u32) -> (r: char)
    requires
        d < 16,
    ensures
        r == hex_digit(d as int),
{
    if d == 0 {
        '0'
    } else if d == 1 {
        '1'
    } else if d == 2 {
        '2'
    } else if d == 3 {
        '3'
    } else if d == 4 {
        '4'
    } else if d == 5 {
        '5'
    } else if d == 6 {
        '6'
    } else if d == 7 {
        '7'
    } else if d == 8 {
        '8'
    } else if d == 9 {
        '9'
    } else if d == 10 {
        'a'
    } else if d == 11 {
        'b'
    } else if d == 12 {
        'c'
    } else if d == 13 {
        'd'
    } else if d == 14 {
        'e'
    } else {
        'f'
    }
}

/// Append the escape of one character.
fn push_escaped_char(c: char, out: &mut Vec<char>)
    ensures
        final(out)@ == old(out)@ + esc_char(c),
{
    if c == '"' {
        out.push('\\');
        out.push('"');
        proof {
            assert(old(out)@ + esc_char(c) =~= out@);
        }
    } else if c == '\\' {
        out.push('\\');
        out.push('\\');
        proof {
            assert(old(out)@ + esc_char(c) =~= out@);
        }
    } else if c == '\u{8}' {
        out.push('\\');
        out.push('b');
        proof {
            assert(old(out)@ + esc_char(c) =~= out@);
        }
    } else if c == '\t' {
        out.push('\\');
        out.push('t');
        proof {
            assert(old(out)@ + esc_char(c) =~= out@);
        }
    } else if c == '\n' {
        out.push('\\');
        out.push('n');
        proof {
            assert(old(out)@ + esc_char(c) =~= out@);
        }
    } else if c == '\u{c}' {
        out.push('\\');
        out.push('f');
        proof {
            assert(old(out)@ + esc_char(c) =~= out@);
        }
    } else if c == '\r' {
        out.push('\\');
        out.push('r');
        proof {
            assert(old(out)@ + esc_char(c) =~= out@);
        }
    } else if (c as u32) < 32 {
        let u = c as u32;
        out.push('\\');
        out.push('u');
        out.push('0');
        out.push('0');
        out.push(hex_of(u / 16));
        out.push(hex_of(u % 16));
        proof {
            assert(old(out)@ + esc_char(c) =~= out@);
        }
    } else {
        out.push(c);
        proof {
            assert(old(out)@ + esc_char(c) =~= out@);
        }
    }
}

/// Append a quoted, escaped string.
#[verifier::loop_isolation(false)]
fn write_quoted(s: &str, out: &mut Vec<char>)
    ensures
        final(out)@ == old(out)@ + quoted(s@),
{
    out.push('"');
    let cs = str_to_chars(s);
    let ghost opened = out@;
    let mut i: usize = 0;
    proof {
        assert(cs@.skip(0) =~= cs@);
    }
    while i < cs.len()
        invariant
            i <= cs@.len(),
            out@ + escape(cs@.skip(i as int)) == opened + escape(cs@),
        decreases cs@.len() - i,
    {
        proof {
            assert(cs@.skip(i as int)[0] == cs@[i as int]);
            assert(cs@.skip(i as int).drop_first() =~= cs@.skip(i as int + 1));
        }
        push_escaped_char(cs[i], out);
        i += 1;
    }
    proof {
        assert(escape(cs@.skip(cs@.len() as int)) == Seq::<char>::empty());
        assert(out@ + Seq::<char>::empty() =~= out@);
    }
    out.push('"');
    proof {
        assert(old(out)@ + quoted(s@) =~= out@);
    }
}

/// Append the rendering of one numeric literal.
fn write_number(n: &crate::value::Number, out: &mut Vec<char>)
    ensures
        final(out)@ == old(out)@ + num_text(n@),
{
    match n {
        crate::value::Number::Int(i) => {
            push_i64(*i, out);
        },
        crate::value::Number::Uint(u) => {
            push_u64(*u, out);
        },
        crate::value::Number::Float(s) => {
            crate::text::append_str_chars(out, s.as_str());
        },
    }
}

/// The indentation of the next nesting level.
fn extend_pad(pad: &Vec<char>, indent: usize) -> (r: Vec<char>)
    ensures
        r@ == pad@ + spaces(indent as nat),
{
    let mut r: Vec<char> = Vec::new();
    append_copies(&mut r, pad);
    let mut j: usize = 0;
    while j < indent
        invariant
            j <= indent,
            r@ == pad@ + spaces(j as nat),
        decreases indent - j,
    {
        r.push(' ');
        proof {
            assert((pad@ + spaces(j as nat)).push(' ') =~= pad@ + spaces(j as nat + 1));
        }
        j += 1;
    }
    proof {
        assert(pad@ + spaces(0) =~= pad@);
    }
    r
}

/// Append the rendering of one value at the given nesting level.
#[verifier::loop_isolation(false)]
#[verifier::rlimit(60)]
fn write_value(v: &JsonValue, pretty: bool, indent: usize, pad: &Vec<char>, out: &mut Vec<char>)
    ensures
        final(out)@ == old(out)@ + render(v@, pretty, indent as nat, pad@),
    decreases value_size(*v), 1int,
{
    match v {
        JsonValue::Null => {
            out.push('n');
            out.push('u');
            out.push('l');
            out.push('l');
            proof {
                assert(old(out)@ + render(v@, pretty, indent as nat, pad@) =~= out@);
            }
        },
        JsonValue::Bool(b) => {
            if *b {
                out.push('t');
                out.push('r');
                out.push('u');
                out.push('e');
            } else {
                out.push('f');
                out.push('a');
                out.push('l');
                out.push('s');
                out.push('e');
            }
            proof {
                assert(old(out)@ + render(v@, pretty, indent as nat, pad@) =~= out@);
            }
        },
        JsonValue::Number(n) => {
            write_number(n, out);
        },
        JsonValue::Str(s) => {
            write_quoted(s.as_str(), out);
        },
        JsonValue::Array(elems) => {
            write_array(elems, pretty, indent, pad, out);
            proof {
                assert(old(out)@ + render(v@, pretty, indent as nat, pad@) =~= out@);
            }
        },
        JsonValue::Object(fields) => {
            write_object(fields, pretty, indent, pad, out);
            proof {
                assert(old(out)@ + render(v@, pretty, indent as nat, pad@) =~= out@);
            }
        },
    }
}

/// Append the rendering of an array.
#[verifier::loop_isolation(false)]
#[verifier::rlimit(60)]
fn write_array(
    elems: &Vec<JsonValue>,
    pretty: bool,
    indent: usize,
    pad: &Vec<char>,
    out: &mut Vec<char>,
)
    ensures
        final(out)@ == old(out)@ + render(
            ValueModel::Array(elems_model(elems@)),
            pretty,
            indent as nat,
            pad@,
        ),
    decreases 1 + crate::value::elems_size(elems@), 0int,
{
    let ghost ms = elems_model(elems@);
    if elems.len() == 0 {
        out.push('[');
        out.push(']');
        proof {
            assert(old(out)@ + render(ValueModel::Array(ms), pretty, indent as nat, pad@)
                =~= out@);
        }
    } else {
        let child_pad = if pretty {
            extend_pad(pad, indent)
        } else {
            let mut p: Vec<char> = Vec::new();
            append_copies(&mut p, pad);
            p
        };
        out.push('[');
        if pretty {
            out.push('\n');
        }
        let ghost base = out@;
        let ghost cpad = if pretty {
            pad@ + spaces(indent as nat)
        } else {
            pad@
        };
        let mut i: usize = 0;
        proof {
            assert(ms.skip(0) =~= ms);
        }
        while i < elems.len()
            invariant
                i <= elems@.len(),
                child_pad@ == cpad,
                out@ + render_elems(ms.skip(i as int), pretty, indent as nat, cpad, i == 0)
                    == base + render_elems(ms, pretty, indent as nat, cpad, true),
            decreases elems@.len() - i,
        {
            proof {
                assert(ms.skip(i as int)[0] == ms[i as int]);
                assert(ms.skip(i as int).drop_first() =~= ms.skip(i as int + 1));
                lemma_elem_size(elems@, i as int);
            }
            if i == 0 {
                if pretty {
                    append_copies(out, &child_pad);
                }
            } else {
                out.push(',');
                if pretty {
                    out.push('\n');
                    append_copies(out, &child_pad);
                }
            }
            write_value(&elems[i], pretty, indent, &child_pad, out);
            proof {
                assert(out@ + render_elems(ms.skip(i as int + 1), pretty, indent as nat, cpad, false)
                    =~= base + render_elems(ms, pretty, indent as nat, cpad, true));
            }
            i += 1;
        }
        proof {
            assert(render_elems(ms.skip(elems@.len() as int), pretty, indent as nat, cpad, false)
                == Seq::<char>::empty());
            assert(out@ =~= base + render_elems(ms, pretty, indent as nat, cpad, true));
        }
        if pretty {
            out.push('\n');
            append_copies(out, pad);
        }
        out.push(']');
        proof {
            assert(old(out)@ + render(ValueModel::Array(ms), pretty, indent as nat, pad@)
                =~= out@);
        }
    }
}

/// Append the rendering of an object.
#[verifier::loop_isolation(false)]
#[verifier::rlimit(100)]
fn write_object(
    fields: &Vec<(String, JsonValue)>,
    pretty: bool,
    indent: usize,
    pad: &Vec<char>,
    out: &mut Vec<char>,
)
    ensures
        final(out)@ == old(out)@ + render(
            ValueModel::Object(fields_model(fields@)),
            pretty,
            indent as nat,
            pad@,
        ),
    decreases 1 + crate::value::fields_size(fields@), 0int,
{
    let ghost ms = fields_model(fields@);
    if fields.len() == 0 {
        out.push('{');
        out.push('}');
        proof {
            assert(old(out)@ + render(ValueModel::Object(ms), pretty, indent as nat, pad@)
                =~= out@);
        }
    } else {
        let child_pad = if pretty {
            extend_pad(pad, indent)
        } else {
            let mut p: Vec<char> = Vec::new();
            append_copies(&mut p, pad);
            p
        };
        out.push('{');
        if pretty {
            out.push('\n');
        }
        let ghost base = out@;
        let ghost cpad = if pretty {
            pad@ + spaces(indent as nat)
        } else {
            pad@
        };
        let mut i: usize = 0;
        proof {
            assert(ms.skip(0) =~= ms);
        }
        while i < fields.len()
            invariant
                i <= fields@.len(),
                child_pad@ == cpad,
                out@ + render_fields(ms.skip(i as int), pretty, indent as nat, cpad, i == 0)
                    == base + render_fields(ms, pretty, indent as nat, cpad, true),
            decreases fields@.len() - i,
        {
            proof {
                assert(ms.skip(i as int)[0] == ms[i as int]);
                assert(ms.skip(i as int).drop_first() =~= ms.skip(i as int + 1));
                lemma_field_size(fields@, i as int);
            }
            if i == 0 {
                if pretty {
                    append_copies(out, &child_pad);
                }
            } else {
                out.push(',');
                if pretty {
                    out.push('\n');
                    append_copies(out, &child_pad);
                }
            }
            let entry = &fields[i];
            write_quoted(entry.0.as_str(), out);
            out.push(':');
            if pretty {
                out.push(' ');
            }
            write_value(&entry.1, pretty, indent, &child_pad, out);
            proof {
                assert(out@ + render_fields(ms.skip(i as int + 1), pretty, indent as nat, cpad, false)
                    =~= base + render_fields(ms, pretty, indent as nat, cpad, true));
            }
            i += 1;
        }
        proof {
            assert(render_fields(ms.skip(fields@.len() as int), pretty, indent as nat, cpad, false)
                == Seq::<char>::empty());
            assert(out@ =~= base + render_fields(ms, pretty, indent as nat, cpad, true));
        }
        if pretty {
            out.push('\n');
            append_copies(out, pad);
        }
        out.push('}');
        proof {
            assert(old(out)@ + render(ValueModel::Object(ms), pretty, indent as nat, pad@)
                =~= out@);
        }
    }
}

/// The quote-style pass over finished output.
#[verifier::loop_isolation(false)]
fn swap_quote_chars(s: &Vec<char>) -> (r: Vec<char>)
    ensures
        r@ == swap_quotes(s@),
{
    let mut out: Vec<char> = Vec::new();
    let mut i: usize = 0;
    proof {
        assert(s@.skip(0) =~= s@);
    }
    while i < s.len()
        invariant
            i <= s@.len(),
            out@ + swap_quotes(s@.skip(i as int)) == swap_quotes(s@),
        decreases s@.len() - i,
    {
        let c = s[i];
        proof {
            assert(s@.skip(i as int)[0] == s@[i as int]);
            assert(s@.skip(i as int).drop_first() =~= s@.skip(i as int + 1));
        }
        if c == '\\' && i + 1 < s.len() {
            proof {
                assert(s@.skip(i as int)[1] == s@[i as int + 1]);
                assert(s@.skip(i as int).skip(2) =~= s@.skip(i as int + 2));
            }
            out.push(c);
            out.push(s[i + 1]);
            i += 2;
        } else if c == '"' {
            out.push('\'');
            i += 1;
        } else {
            out.push(c);
            i += 1;
        }
    }
    proof {
        assert(swap_quotes(s@.skip(s@.len() as int)) == Seq::<char>::empty());
        assert(out@ + Seq::<char>::empty() =~= out@);
    }
    out
}

/// Render a value as text. Compact unless `pretty`; `indent` spaces per
/// nesting level in pretty output; with `single_quotes`, the structural
/// double quotes of the finished text become single quotes while escaped
/// quotes inside string content stay escaped.
pub fn serialize(value: &JsonValue, pretty: bool, indent: usize, single_quotes: bool) -> (r: String)
    ensures
        r@ == rendered(value@, pretty, indent as nat, single_quotes),
{
    let mut out: Vec<char> = Vec::new();
    let pad: Vec<char> = Vec::new();
    write_value(value, pretty, indent, &pad, &mut out);
    proof {
        assert(pad@ =~= Seq::<char>::empty());
        assert(Seq::<char>::empty() + render(value@, pretty, indent as nat, pad@) =~= render(
            value@,
            pretty,
            indent as nat,
            pad@,
        ));
    }
    if single_quotes {
        let swapped = swap_quote_chars(&out);
        chars_to_string(&swapped)
    } else {
        chars_to_string(&out)
    }
}

} // verus!
