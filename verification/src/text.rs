//! Text building blocks shared by the serializer and the diagnostics:
//! the character boundary to `String`, decimal rendering of integers,
//! joining text pieces with a separator, and line counting.
use vstd::prelude::*;

verus! {

/// Relies on str::chars: it yields exactly the characters of the string,
/// in order.
#[verifier::external_body]
pub fn str_to_chars(s: &str) -> (r: Vec<char>)
    ensures
        r@ == s@,
{
    s.chars().collect()
}

/// Relies on String's FromIterator over characters: the collected string
/// holds exactly the characters handed to it, in order.
#[verifier::external_body]
pub fn chars_to_string(v: &Vec<char>) -> (r: String)
    ensures
        r@ == v@,
{
    v.iter().collect()
}

/// Append every character of `s` to `out`.
pub fn append_str_chars(out: &mut Vec<char>, s: &str)
    ensures
        final(out)@ == old(out)@ + s@,
{
    let mut cs = str_to_chars(s);
    out.append(&mut cs);
}

/// The decimal digit character for one digit value.
pub open spec fn digit_char(d: int) -> char {
    if d == 0 {
        '0'
    } else if d == 1 {
        '1'
    } else if d == 2 {
        '2'
    } else if d == 3 {
        '3'
    } else if d == 4 {
        '4'
    } else if d == 5 {
        '5'
    } else if d == 6 {
        '6'
    } else if d == 7 {
        '7'
    } else if d == 8 {
        '8'
    } else {
        '9'
    }
}

/// The decimal rendering of a natural number, most significant digit first.
pub open spec fn dec_digits(n: nat) -> Seq<char>
    decreases n,
    via dec_digits_dec
{
    if n < 10 {
        seq![digit_char(n as int)]
    } else {
        dec_digits(n / 10).push(digit_char((n % 10) as int))
    }
}

#[via_fn]
proof fn dec_digits_dec(n: nat) {
    assert(n >= 10 ==> n / 10 < n) by (nonlinear_arith);
}

/// The numeric value of one decimal digit character.
pub open spec fn digit_val(c: char) -> nat {
    if c == '0' {
        0
    } else if c == '1' {
        1
    } else if c == '2' {
        2
    } else if c == '3' {
        3
    } else if c == '4' {
        4
    } else if c == '5' {
        5
    } else if c == '6' {
        6
    } else if c == '7' {
        7
    } else if c == '8' {
        8
    } else {
        9
    }
}

/// The number a decimal rendering reads back as.
pub open spec fn dec_value(s: Seq<char>) -> nat
    decreases s.len(),
{
    if s.len() == 0 {
        0
    } else {
        dec_value(s.drop_last()) * 10 + digit_val(s.last())
    }
}

/// Decimal renderings read back to the number they render: the numeric side
/// of the serialize-then-parse round trip.
pub proof fn lemma_dec_digits_roundtrip(n: nat)
    ensures
        dec_value(dec_digits(n)) == n,
    decreases n,
{
    if n < 10 {
        assert(seq![digit_char(n as int)].drop_last() =~= Seq::<char>::empty());
        assert(seq![digit_char(n as int)].last() == digit_char(n as int));
        assert(dec_value(Seq::<char>::empty()) == 0);
        assert(digit_val(digit_char(n as int)) == n);
    } else {
        assert(n / 10 < n) by (nonlinear_arith)
            requires
                n >= 10,
        ;
        lemma_dec_digits_roundtrip(n / 10);
        let whole = dec_digits(n / 10).push(digit_char((n % 10) as int));
        assert(whole.drop_last() =~= dec_digits(n / 10));
        assert(whole.last() == digit_char((n % 10) as int));
        assert(digit_val(digit_char((n % 10) as int)) == n % 10);
        assert(n / 10 * 10 + n % 10 == n) by (nonlinear_arith);
    }
}

/// The decimal rendering of an integer: a minus sign for negatives.
pub open spec fn dec_int(i: int) -> Seq<char> {
    if i < 0 {
        seq!['-'] + dec_digits((-i) as nat)
    } else {
        dec_digits(i as nat)
    }
}

/// The digit character for one digit.
fn digit_of(d: u64) -> (r: char)
    requires
        d < 10,
    ensures
        r == digit_char(d as int),
{
    if d == 0 {
        '0'
    } else if d == 1 {
        '1'
    } else if d == 2 {
        '2'
    } else if d == 3 {
        '3'
    } else if d == 4 {
        '4'
    } else if d == 5 {
        '5'
    } else if d == 6 {
        '6'
    } else if d == 7 {
        '7'
    } else if d == 8 {
        '8'
    } else {
        '9'
    }
}

/// Append the decimal rendering of `n`.
pub fn push_u64(n: u64, out: &mut Vec<char>)
    ensures
        final(out)@ == old(out)@ + dec_digits(n as nat),
    decreases n,
{
    if n < 10 {
        out.push(digit_of(n));
    } else {
        proof {
            assert(n as nat / 10 == (n / 10) as nat);
            assert(n >= 10 ==> n / 10 < n) by (nonlinear_arith);
        }
        push_u64(n / 10, out);
        out.push(digit_of(n % 10));
    }
}

/// Append the decimal rendering of `i`, minus sign included.
pub fn push_i64(i: i64, out: &mut Vec<char>)
    ensures
        final(out)@ == old(out)@ + dec_int(i as int),
{
    if i < 0 {
        out.push('-');
        let magnitude: u64 = ((0i128 - (i as i128))) as u64;
        proof {
            assert(magnitude as nat == (-(i as int)) as nat);
        }
        push_u64(magnitude, out);
    } else {
        push_u64(i as u64, out);
    }
}

/// The models of a sequence of strings.
pub open spec fn strings_model(parts: Seq<String>) -> Seq<Seq<char>> {
    Seq::new(parts.len(), |i: int| parts[i]@)
}

/// What follows the first piece in a joined text: a separator before each
/// further piece.
pub open spec fn join_tail(parts: Seq<Seq<char>>, sep: Seq<char>) -> Seq<char>
    decreases parts.len(),
{
    if parts.len() == 0 {
        Seq::empty()
    } else {
        sep + parts[0] + join_tail(parts.drop_first(), sep)
    }
}

/// The pieces joined with the separator between consecutive pieces.
pub open spec fn join_with(parts: Seq<Seq<char>>, sep: Seq<char>) -> Seq<char> {
    if parts.len() == 0 {
        Seq::empty()
    } else {
        parts[0] + join_tail(parts.drop_first(), sep)
    }
}

/// Join the strings with the separator between consecutive entries.
#[verifier::loop_isolation(false)]
pub fn join_strings(parts: &Vec<String>, sep: &str) -> (r: String)
    ensures
        r@ == join_with(strings_model(parts@), sep@),
{
    let mut out: Vec<char> = Vec::new();
    if parts.len() == 0 {
        return chars_to_string(&out);
    }
    append_str_chars(&mut out, parts[0].as_str());
    let mut i: usize = 1;
    proof {
        assert(strings_model(parts@).skip(1) =~= strings_model(parts@).drop_first());
    }
    while i < parts.len()
        invariant
            1 <= i <= parts@.len(),
            out@ + join_tail(strings_model(parts@).skip(i as int), sep@) == join_with(
                strings_model(parts@),
                sep@,
            ),
        decreases parts@.len() - i,
    {
        append_str_chars(&mut out, sep);
        append_str_chars(&mut out, parts[i].as_str());
        proof {
            let m = strings_model(parts@);
            assert(m.skip(i as int)[0] == m[i as int]);
            assert(m.skip(i as int).drop_first() =~= m.skip(i as int + 1));
        }
        i += 1;
    }
    proof {
        assert(join_tail(strings_model(parts@).skip(parts@.len() as int), sep@)
            == Seq::<char>::empty());
        assert(out@ + Seq::<char>::empty() =~= out@);
    }
    chars_to_string(&out)
}

/// The number of newline characters in the text.
pub open spec fn newline_count(s: Seq<char>) -> nat
    decreases s.len(),
{
    if s.len() == 0 {
        0
    } else {
        newline_count(s.drop_first()) + if s[0] == '\n' {
            1nat
        } else {
            0nat
        }
    }
}

/// The number of lines of the text: newline-terminated lines, plus one
/// trailing line when the text does not end in a newline.
pub open spec fn line_count(s: Seq<char>) -> nat {
    newline_count(s) + if s.len() > 0 && s[s.len() - 1] != '\n' {
        1nat
    } else {
        0nat
    }
}

/// Count the lines of the text, as a trailing-newline-aware line counter.
#[verifier::loop_isolation(false)]
pub fn count_lines(s: &str) -> (r: usize)
    ensures
        r as nat == line_count(s@),
{
    let cs = str_to_chars(s);
    let mut newlines: usize = 0;
    let mut i: usize = 0;
    proof {
        assert(cs@.skip(0) =~= cs@);
    }
    while i < cs.len()
        invariant
            i <= cs@.len(),
            newlines <= i,
            newlines + newline_count(cs@.skip(i as int)) == newline_count(cs@),
        decreases cs@.len() - i,
    {
        proof {
            assert(cs@.skip(i as int)[0] == cs@[i as int]);
            assert(cs@.skip(i as int).drop_first() =~= cs@.skip(i as int + 1));
        }
        if cs[i] == '\n' {
            newlines += 1;
        }
        i += 1;
    }
    proof {
        assert(newline_count(cs@.skip(cs@.len() as int)) == 0);
        assert(newline_count(cs@) <= cs@.len()) by {
            lemma_newline_count_bound(cs@);
        }
    }
    if cs.len() > 0 && cs[cs.len() - 1] != '\n' {
        proof {
            lemma_newline_count_bound(cs@);
        }
        newlines + 1
    } else {
        newlines
    }
}

proof fn lemma_newline_count_bound(s: Seq<char>)
    ensures
        newline_count(s) <= s.len(),
        s.len() > 0 && s[s.len() - 1] != '\n' ==> newline_count(s) < s.len(),
    decreases s.len(),
{
    if s.len() > 0 {
        lemma_newline_count_bound(s.drop_first());
        if s.len() > 1 {
            assert(s.drop_first()[s.drop_first().len() - 1] == s[s.len() - 1]);
        }
    }
}

} // verus!
