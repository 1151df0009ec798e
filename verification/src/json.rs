//! Verified construction of the JSON request text this library sends to the
//! search engine: string escaping, quoting, decimal numbers, and joining.
//!
//! Every builder appends to a `String` and states the exact character
//! sequence it appends, so the request bodies produced by the protocol
//! modules are pinned down character by character.

use vstd::prelude::*;

verus! {

/// Relies on String::push: appends exactly the one character.
#[verifier::external_body]
pub fn push_char(out: &mut String, c: char)
    ensures
        final(out)@ == old(out)@ + seq![c],
{
    out.push(c);
}

/// Character equality of two string slices.
pub fn str_eq(a: &str, b: &str) -> (r: bool)
    ensures
        r == (a@ == b@),
{
    let n = a.unicode_len();
    if n != b.unicode_len() {
        proof {
            assert(a@ != b@) by {
                assert(a@.len() != b@.len());
            }
        }
        return false;
    }
    let mut i: usize = 0;
    while i < n
        invariant
            n == a@.len(),
            n == b@.len(),
            i <= n,
            forall|k: int| 0 <= k < i ==> a@[k] == b@[k],
        decreases n - i,
    {
        if a.get_char(i) != b.get_char(i) {
            return false;
        }
        i += 1;
    }
    proof {
        assert(a@ =~= b@);
    }
    true
}

/// The hexadecimal digit character for a value below 16 (lower case).
pub open spec fn hex_char_spec(d: nat) -> char {
    if d == 0 {
        '0'
    } else if d == 1 {
        '1'
    } else if d == 2 {
        '2'
    } else if d == 3 {
        '3'
    } else if d == 4 {
        '4'
    } else if d == 5 {
        '5'
    } else if d == 6 {
        '6'
    } else if d == 7 {
        '7'
    } else if d == 8 {
        '8'
    } else if d == 9 {
        '9'
    } else if d == 10 {
        'a'
    } else if d == 11 {
        'b'
    } else if d == 12 {
        'c'
    } else if d == 13 {
        'd'
    } else if d == 14 {
        'e'
    } else {
        'f'
    }
}

pub fn hex_char(d: u8) -> (r: char)
    requires
        d < 16,
    ensures
        r == hex_char_spec(d as nat),
{
    match d {
        0 => '0',
        1 => '1',
        2 => '2',
        3 => '3',
        4 => '4',
        5 => '5',
        6 => '6',
        7 => '7',
        8 => '8',
        9 => '9',
        10 => 'a',
        11 => 'b',
        12 => 'c',
        13 => 'd',
        14 => 'e',
        _ => 'f',
    }
}

/// The JSON escape of one character inside a quoted string: quote and
/// backslash are escaped, the common control characters get their short
/// escapes, any other control character becomes a `\u00XX` escape, and
/// everything else stands for itself.
pub open spec fn json_escaped_char(c: char) -> Seq<char> {
    if c == '"' {
        seq!['\\', '"']
    } else if c == '\\' {
        seq!['\\', '\\']
    } else if c == '\n' {
        seq!['\\', 'n']
    } else if c == '\r' {
        seq!['\\', 'r']
    } else if c == '\t' {
        seq!['\\', 't']
    } else if (c as u32) < 32 {
        seq!['\\', 'u', '0', '0', hex_char_spec(((c as u32) / 16) as nat), hex_char_spec(
            ((c as u32) % 16) as nat,
        )]
    } else {
        seq![c]
    }
}

/// The JSON escape of a whole string body.
pub open spec fn json_escaped(s: Seq<char>) -> Seq<char>
    decreases s.len(),
{
    if s.len() == 0 {
        Seq::empty()
    } else {
        json_escaped(s.drop_last()) + json_escaped_char(s.last())
    }
}

/// A JSON string literal: quotes around the escaped body.
pub open spec fn json_quoted(s: Seq<char>) -> Seq<char> {
    seq!['"'] + json_escaped(s) + seq!['"']
}

pub fn push_escaped_char(out: &mut String, c: char)
    ensures
        final(out)@ == old(out)@ + json_escaped_char(c),
{
    if c == '"' {
        push_char(out, '\\');
        push_char(out, '"');
    } else if c == '\\' {
        push_char(out, '\\');
        push_char(out, '\\');
    } else if c == '\n' {
        push_char(out, '\\');
        push_char(out, 'n');
    } else if c == '\r' {
        push_char(out, '\\');
        push_char(out, 'r');
    } else if (c as u32) < 32 {
        if c == '\t' {
            push_char(out, '\\');
            push_char(out, 't');
        } else {
            let u = c as u32;
            push_char(out, '\\');
            push_char(out, 'u');
            push_char(out, '0');
            push_char(out, '0');
            push_char(out, hex_char((u / 16) as u8));
            push_char(out, hex_char((u % 16) as u8));
            proof {
                assert(final(out)@ =~= old(out)@ + json_escaped_char(c));
            }
        }
    } else {
        push_char(out, c);
    }
    proof {
        assert(final(out)@ =~= old(out)@ + json_escaped_char(c));
    }
}

pub fn push_escaped(out: &mut String, s: &str)
    ensures
        final(out)@ == old(out)@ + json_escaped(s@),
{
    let n = s.unicode_len();
    let mut i: usize = 0;
    while i < n
        invariant
            n == s@.len(),
            i <= n,
            out@ == old(out)@ + json_escaped(s@.take(i as int)),
        decreases n - i,
    {
        let c = s.get_char(i);
        push_escaped_char(out, c);
        proof {
            assert(s@.take(i + 1 as int).drop_last() =~= s@.take(i as int));
            assert(s@.take(i + 1 as int).last() == s@[i as int]);
        }
        i += 1;
    }
    proof {
        assert(s@.take(n as int) =~= s@);
    }
}

pub fn push_quoted(out: &mut String, s: &str)
    ensures
        final(out)@ == old(out)@ + json_quoted(s@),
{
    push_char(out, '"');
    push_escaped(out, s);
    push_char(out, '"');
    proof {
        assert(final(out)@ =~= old(out)@ + json_quoted(s@));
    }
}

/// The decimal digit sequence of a number, most significant digit first,
/// without padding or sign.
pub open spec fn dec_digits(n: nat) -> Seq<char>
    decreases n,
{
    if n < 10 {
        seq![hex_char_spec(n)]
    } else {
        dec_digits(n / 10) + seq![hex_char_spec(n % 10)]
    }
}

pub fn push_u64(out: &mut String, n: u64)
    ensures
        final(out)@ == old(out)@ + dec_digits(n as nat),
    decreases n,
{
    if n < 10 {
        push_char(out, hex_char(n as u8));
    } else {
        push_u64(out, n / 10);
        push_char(out, hex_char((n % 10) as u8));
    }
}

/// The elements of `items`, each rendered by `render`, separated by `sep`.
pub open spec fn join_seq<A>(items: Seq<A>, render: spec_fn(A) -> Seq<char>, sep: Seq<char>) -> Seq<
    char,
>
    decreases items.len(),
{
    if items.len() == 0 {
        Seq::empty()
    } else if items.len() == 1 {
        render(items[0])
    } else {
        join_seq(items.drop_last(), render, sep) + sep + render(items.last())
    }
}

} // verus!

verus! {

/// Renderer of one string as a JSON string literal, for `join_seq`.
pub open spec fn render_quoted() -> spec_fn(Seq<char>) -> Seq<char> {
    |x: Seq<char>| json_quoted(x)
}

/// A JSON array of string literals.
pub open spec fn json_str_array(xs: Seq<Seq<char>>) -> Seq<char> {
    seq!['['] + join_seq(xs, render_quoted(), seq![',']) + seq![']']
}

pub fn push_quoted_array(out: &mut String, xs: &Vec<String>)
    ensures
        final(out)@ == old(out)@ + json_str_array(xs.deep_view()),
{
    push_char(out, '[');
    let ghost all = xs.deep_view();
    let mut i: usize = 0;
    while i < xs.len()
        invariant
            i <= xs@.len(),
            all == xs.deep_view(),
            all.len() == xs@.len(),
            out@ == old(out)@ + seq!['['] + join_seq(all.take(i as int), render_quoted(), seq![',']),
        decreases xs@.len() - i,
    {
        proof {
            assert(all[i as int] == xs@[i as int]@);
            assert(all.take(i as int + 1).drop_last() =~= all.take(i as int));
            assert(all.take(i as int + 1).last() == all[i as int]);
        }
        if i > 0 {
            push_char(out, ',');
        }
        push_quoted(out, xs[i].as_str());
        proof {
            assert(out@ =~= old(out)@ + seq!['['] + join_seq(
                all.take(i as int + 1),
                render_quoted(),
                seq![','],
            ));
        }
        i += 1;
    }
    push_char(out, ']');
    proof {
        assert(all.take(all.len() as int) =~= all);
        assert(final(out)@ =~= old(out)@ + json_str_array(all));
    }
}

} // verus!

verus! {

/// All the texts of `xs`, concatenated in order.
pub open spec fn concat_all(xs: Seq<Seq<char>>) -> Seq<char>
    decreases xs.len(),
{
    if xs.len() == 0 {
        Seq::<char>::empty()
    } else {
        concat_all(xs.drop_last()) + xs.last()
    }
}

/// Concatenation of texts distributes over appending lists of texts.
pub proof fn lemma_concat_all_append(xs: Seq<Seq<char>>, ys: Seq<Seq<char>>)
    ensures
        concat_all(xs + ys) == concat_all(xs) + concat_all(ys),
    decreases ys.len(),
{
    if ys.len() == 0 {
        assert(xs + ys =~= xs);
        assert(concat_all(ys) =~= Seq::<char>::empty());
        assert(concat_all(xs) + concat_all(ys) =~= concat_all(xs));
    } else {
        assert((xs + ys).drop_last() =~= xs + ys.drop_last());
        assert((xs + ys).last() == ys.last());
        lemma_concat_all_append(xs, ys.drop_last());
        assert(concat_all(xs + ys) =~= concat_all(xs) + concat_all(ys));
    }
}

} // verus!
