use vstd::prelude::*;
use vstd::string::*;

verus! {

/// Relies on `str::chars`, collected into a `Vec`: the characters in order.
#[verifier::external_body]
pub(crate) fn chars_of(s: &str) -> (r: Vec<char>)
    ensures
        r@ == s@,
{
    s.chars().collect()
}

/// Relies on `String::push`: appends one character.
#[verifier::external_body]
pub(crate) fn push_char(s: &mut String, c: char)
    ensures
        final(s)@ == old(s)@.push(c),
{
    s.push(c)
}

/// The `k`-th piece of `s` split at `'\n'`, counting from 0.
pub open spec fn piece(s: Seq<char>, k: nat) -> Seq<char>
    decreases s.len(),
{
    if s.len() == 0 {
        seq![]
    } else if s[0] == '\n' {
        if k == 0 {
            seq![]
        } else {
            piece(s.drop_first(), (k - 1) as nat)
        }
    } else if k == 0 {
        seq![s[0]] + piece(s.drop_first(), 0)
    } else {
        piece(s.drop_first(), k)
    }
}

/// Number of `'\n'` in `s`.
pub open spec fn newlines(s: Seq<char>) -> nat
    decreases s.len(),
{
    if s.len() == 0 {
        0
    } else {
        (if s[0] == '\n' { 1nat } else { 0nat }) + newlines(s.drop_first())
    }
}

/// A line without the `'\r'` of a `"\r\n"` ending.
pub open spec fn strip_cr(p: Seq<char>) -> Seq<char> {
    if p.len() > 0 && p.last() == '\r' {
        p.drop_last()
    } else {
        p
    }
}

/// The line of `text` at index `k` (from 0), as `str::lines` yields them: a
/// line ends at `"\n"` or `"\r\n"`, and the last line needs no ending but is
/// only there when it is not empty.
pub open spec fn line_at(text: Seq<char>, k: nat) -> Option<Seq<char>> {
    if k < newlines(text) {
        Some(strip_cr(piece(text, k)))
    } else if k == newlines(text) && piece(text, k).len() > 0 {
        Some(piece(text, k))
    } else {
        None
    }
}

/// Builds a `String` from the first `n` characters of `v`.
fn string_of(v: &Vec<char>, n: usize) -> (r: String)
    requires
        n <= v@.len(),
    ensures
        r@ == v@.subrange(0, n as int),
{
    let mut r = String::new();
    let mut i: usize = 0;
    while i < n
        invariant
            i <= n <= v@.len(),
            r@ == v@.subrange(0, i as int),
        decreases n - i,
    {
        push_char(&mut r, v[i]);
        assert(v@.subrange(0, i as int + 1) =~= v@.subrange(0, i as int).push(v@[i as int]));
        i = i + 1;
    }
    r
}

/// The line of `text` at index `k`, counting from 0; `None` past the last line.
pub fn nth_line(text: &str, k: usize) -> (r: Option<String>)
    ensures
        r is Some <==> line_at(text@, k as nat) is Some,
        r is Some ==> line_at(text@, k as nat) == Some(r->0@),
{
    let chars = chars_of(text);
    let ghost s = text@;
    let mut cur: Vec<char> = Vec::new();
    let mut seen: usize = 0;
    let mut i: usize = 0;
    assert(s.subrange(0, s.len() as int) =~= s);
    assert(cur@ + s =~= s);
    while i < chars.len()
        invariant
            i <= chars@.len(),
            chars@ == s,
            s == text@,
            seen <= k,
            newlines(s) == seen + newlines(s.subrange(i as int, s.len() as int)),
            piece(s, k as nat) == cur@ + piece(
                s.subrange(i as int, s.len() as int),
                (k - seen) as nat,
            ),
            seen < k ==> cur@.len() == 0,
        decreases chars@.len() - i,
    {
        let ghost rest = s.subrange(i as int, s.len() as int);
        assert(rest.drop_first() =~= s.subrange(i as int + 1, s.len() as int));
        let c = chars[i];
        if c == '\n' {
            if seen == k {
                assert(newlines(rest) >= 1);
                assert(piece(rest, 0) == Seq::<char>::empty());
                assert(cur@ + seq![] =~= cur@);
                assert(piece(s, k as nat) == cur@);

                let n = cur.len();
                if n > 0 && cur[n - 1] == '\r' {
                    let line = string_of(&cur, n - 1);
                    assert(cur@.drop_last() =~= cur@.subrange(0, n - 1));
                    return Some(line);
                } else {
                    let line = string_of(&cur, n);
                    assert(cur@ =~= cur@.subrange(0, n as int));
                    return Some(line);
                }
            }
            seen = seen + 1;
        } else if seen == k {
            assert(seq![c] + piece(rest.drop_first(), 0) == rest.subrange(0, 1) + piece(
                rest.drop_first(),
                0,
            ));
            assert(cur@ + (seq![c] + piece(rest.drop_first(), 0)) =~= cur@.push(c) + piece(
                rest.drop_first(),
                0,
            ));
            cur.push(c);
        }
        i = i + 1;
    }
    assert(s.subrange(i as int, s.len() as int) =~= Seq::<char>::empty());
    assert(cur@ + seq![] =~= cur@);
    if seen == k && cur.len() > 0 {
        let n = cur.len();
        let line = string_of(&cur, n);
        assert(cur@ =~= cur@.subrange(0, n as int));
        Some(line)
    } else {
        None
    }
}

/// A decimal digit as a character.
pub open spec fn digit_char(d: nat) -> char {
    if d == 0 {
        '0'
    } else if d == 1 {
        '1'
    } else if d == 2 {
        '2'
    } else if d == 3 {
        '3'
    } else if d == 4 {
        '4'
    } else if d == 5 {
        '5'
    } else if d == 6 {
        '6'
    } else if d == 7 {
        '7'
    } else if d == 8 {
        '8'
    } else {
        '9'
    }
}

/// The decimal form of `n`, without leading zeros.
pub open spec fn decimal(n: nat) -> Seq<char>
    decreases n,
{
    if n < 10 {
        seq![digit_char(n)]
    } else {
        decimal(n / 10).push(digit_char(n % 10))
    }
}

fn digit(d: usize) -> (c: char)
    requires
        d < 10,
    ensures
        c == digit_char(d as nat),
{
    if d == 0 {
        '0'
    } else if d == 1 {
        '1'
    } else if d == 2 {
        '2'
    } else if d == 3 {
        '3'
    } else if d == 4 {
        '4'
    } else if d == 5 {
        '5'
    } else if d == 6 {
        '6'
    } else if d == 7 {
        '7'
    } else if d == 8 {
        '8'
    } else {
        '9'
    }
}

/// Appends the decimal form of `n`.
pub fn push_decimal(out: &mut String, n: usize)
    ensures
        final(out)@ == old(out)@ + decimal(n as nat),
    decreases n,
{
    if n < 10 {
        push_char(out, digit(n));
        assert(old(out)@.push(digit_char(n as nat)) =~= old(out)@ + seq![digit_char(n as nat)]);
    } else {
        push_decimal(out, n / 10);
        push_char(out, digit(n % 10));
        assert(old(out)@ + decimal(n as nat / 10) + seq![digit_char(n as nat % 10)] =~= old(out)@
            + decimal(n as nat / 10).push(digit_char(n as nat % 10)));
    }
}

/// `n` copies of `c`.
pub open spec fn repeated(c: char, n: nat) -> Seq<char> {
    Seq::new(n, |i: int| c)
}

/// Appends `n` copies of `c`.
pub fn push_repeated(out: &mut String, c: char, n: usize)
    ensures
        final(out)@ == old(out)@ + repeated(c, n as nat),
{
    let mut i: usize = 0;
    while i < n
        invariant
            i <= n,
            out@ == old(out)@ + repeated(c, i as nat),
        decreases n - i,
    {
        push_char(out, c);
        assert(old(out)@ + repeated(c, i as nat + 1) =~= (old(out)@ + repeated(c, i as nat)).push(c));
        i = i + 1;
    }
}

} // verus!
