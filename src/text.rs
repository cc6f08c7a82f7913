//! Mathematical model of the text operations the wire protocol is built on:
//! whitespace splitting, `key=value` lookup and decimal numbers.
use vstd::prelude::*;

verus! {

/// Unicode `White_Space`, the set `char::is_whitespace` tests.
pub open spec fn is_space(c: char) -> bool {
    let u = c as u32;
    ||| 0x09 <= u <= 0x0d
    ||| u == 0x20
    ||| u == 0x85
    ||| u == 0xa0
    ||| u == 0x1680
    ||| 0x2000 <= u <= 0x200a
    ||| u == 0x2028
    ||| u == 0x2029
    ||| u == 0x202f
    ||| u == 0x205f
    ||| u == 0x3000
}

pub open spec fn no_space(s: Seq<char>) -> bool {
    forall|i: int| 0 <= i < s.len() ==> !is_space(#[trigger] s[i])
}

/// The maximal runs of non-space characters of `s`, with `cur` the run read so far.
pub open spec fn split_from(s: Seq<char>, cur: Seq<char>) -> Seq<Seq<char>>
    decreases s.len(),
{
    if s.len() == 0 {
        if cur.len() == 0 {
            seq![]
        } else {
            seq![cur]
        }
    } else if is_space(s[0]) {
        if cur.len() == 0 {
            split_from(s.drop_first(), cur)
        } else {
            seq![cur] + split_from(s.drop_first(), seq![])
        }
    } else {
        split_from(s.drop_first(), cur.push(s[0]))
    }
}

/// The words of a line, as `str::split_whitespace` yields them.
pub open spec fn words(s: Seq<char>) -> Seq<Seq<char>> {
    split_from(s, seq![])
}

/// Words joined by single spaces.
pub open spec fn join_words(ws: Seq<Seq<char>>) -> Seq<char>
    decreases ws.len(),
{
    if ws.len() == 0 {
        seq![]
    } else if ws.len() == 1 {
        ws[0]
    } else {
        ws[0] + seq![' '] + join_words(ws.drop_first())
    }
}

pub open spec fn clean_words(ws: Seq<Seq<char>>) -> bool {
    forall|i: int| 0 <= i < ws.len() ==> (#[trigger] ws[i]).len() > 0 && no_space(ws[i])
}

/// The value of the last word that starts with `key`, the key taken off.
pub open spec fn field(ws: Seq<Seq<char>>, key: Seq<char>) -> Option<Seq<char>>
    decreases ws.len(),
{
    if ws.len() == 0 {
        None
    } else if key.is_prefix_of(ws.last()) {
        Some(ws.last().subrange(key.len() as int, ws.last().len() as int))
    } else {
        field(ws.drop_last(), key)
    }
}

pub open spec fn is_digit(c: char) -> bool {
    '0' <= c && c <= '9'
}

pub open spec fn digit_value(c: char) -> nat {
    (c as u32 - '0' as u32) as nat
}

pub open spec fn digit_char(d: nat) -> char
    recommends
        d < 10,
{
    if d == 0 {
        '0'
    } else if d == 1 {
        '1'
    } else if d == 2 {
        '2'
    } else if d == 3 {
        '3'
    } else if d == 4 {
        '4'
    } else if d == 5 {
        '5'
    } else if d == 6 {
        '6'
    } else if d == 7 {
        '7'
    } else if d == 8 {
        '8'
    } else {
        '9'
    }
}

/// The number written by a sequence of decimal digits.
pub open spec fn digits_value(s: Seq<char>) -> nat
    decreases s.len(),
{
    if s.len() == 0 {
        0
    } else {
        digits_value(s.drop_last()) * 10 + digit_value(s.last())
    }
}

/// The shortest decimal form of `n`, as `to_string` writes an unsigned integer.
pub open spec fn decimal(n: nat) -> Seq<char>
    decreases n,
{
    if n < 10 {
        seq![digit_char(n)]
    } else {
        decimal(n / 10).push(digit_char(n % 10))
    }
}

/// What `str::parse` gives for an unsigned integer type whose largest value is `max`:
/// an optional `+`, then one or more ASCII digits, of a value that fits.
pub open spec fn parse_unsigned(s: Seq<char>, max: nat) -> Option<nat> {
    let d = if s.len() > 0 && s[0] == '+' {
        s.drop_first()
    } else {
        s
    };
    if d.len() > 0 && (forall|i: int| 0 <= i < d.len() ==> is_digit(#[trigger] d[i]))
        && digits_value(d) <= max {
        Some(digits_value(d))
    } else {
        None
    }
}

pub open spec fn parse_u32(s: Seq<char>) -> Option<u32> {
    match parse_unsigned(s, u32::MAX as nat) {
        Some(n) => Some(n as u32),
        None => None,
    }
}

pub open spec fn parse_u64(s: Seq<char>) -> Option<u64> {
    match parse_unsigned(s, u64::MAX as nat) {
        Some(n) => Some(n as u64),
        None => None,
    }
}

// ---- splitting ----

proof fn lemma_split_word(t: Seq<char>, s: Seq<char>, cur: Seq<char>)
    requires
        no_space(t),
    ensures
        split_from(t + s, cur) == split_from(s, cur + t),
    decreases t.len(),
{
    if t.len() == 0 {
        assert(t + s =~= s);
        assert(cur + t =~= cur);
    } else {
        let ts = t + s;
        assert(ts[0] == t[0]);
        assert(ts.drop_first() =~= t.drop_first() + s);
        lemma_split_word(t.drop_first(), s, cur.push(t[0]));
        assert(cur.push(t[0]) + t.drop_first() =~= cur + t);
    }
}

/// Splitting words joined by single spaces gives the words back.
pub proof fn lemma_words_of_join(ws: Seq<Seq<char>>)
    requires
        ws.len() > 0,
        clean_words(ws),
    ensures
        words(join_words(ws)) == ws,
    decreases ws.len(),
{
    let t = ws[0];
    assert(t.len() > 0 && no_space(t));
    if ws.len() == 1 {
        lemma_split_word(t, seq![], seq![]);
        assert(t + Seq::<char>::empty() =~= t);
        assert(Seq::<char>::empty() + t =~= t);
        assert(split_from(seq![], t) == seq![t]);
        assert(ws =~= seq![t]);
    } else {
        let rest = ws.drop_first();
        assert(clean_words(rest)) by {
            assert forall|i: int| 0 <= i < rest.len() implies (#[trigger] rest[i]).len() > 0
                && no_space(rest[i]) by {
                assert(rest[i] == ws[i + 1]);
            }
        }
        lemma_words_of_join(rest);
        let tail = seq![' '] + join_words(rest);
        assert(join_words(ws) =~= t + tail);
        lemma_split_word(t, tail, seq![]);
        assert(Seq::<char>::empty() + t =~= t);
        assert(tail[0] == ' ');
        assert(tail.drop_first() =~= join_words(rest));
        assert(split_from(tail, t) == seq![t] + split_from(join_words(rest), seq![]));
        assert(ws =~= seq![t] + rest);
    }
}

proof fn lemma_split_clean(s: Seq<char>, cur: Seq<char>)
    requires
        no_space(cur),
    ensures
        clean_words(split_from(s, cur)),
    decreases s.len(),
{
    if s.len() == 0 {
    } else if is_space(s[0]) {
        if cur.len() == 0 {
            lemma_split_clean(s.drop_first(), cur);
        } else {
            lemma_split_clean(s.drop_first(), seq![]);
            let r = split_from(s.drop_first(), seq![]);
            assert forall|i: int| 0 <= i < (seq![cur] + r).len() implies (#[trigger] (seq![cur]
                + r)[i]).len() > 0 && no_space((seq![cur] + r)[i]) by {
                if i > 0 {
                    assert((seq![cur] + r)[i] == r[i - 1]);
                }
            }
        }
    } else {
        lemma_split_clean(s.drop_first(), cur.push(s[0]));
    }
}

/// Every word of a line is non-empty and holds no space.
pub proof fn lemma_words_clean(s: Seq<char>)
    ensures
        clean_words(words(s)),
{
    lemma_split_clean(s, seq![]);
}

/// Adding one word to the end of a joined line adds a space and the word.
pub proof fn lemma_join_push(ws: Seq<Seq<char>>, w: Seq<char>)
    requires
        ws.len() > 0,
    ensures
        join_words(ws.push(w)) == join_words(ws) + seq![' '] + w,
    decreases ws.len(),
{
    if ws.len() == 1 {
        assert(ws.push(w).drop_first() =~= seq![w]);
        assert(join_words(seq![w]) == w);
        assert(join_words(ws.push(w)) =~= join_words(ws) + seq![' '] + w);
    } else {
        assert(ws.push(w).drop_first() =~= ws.drop_first().push(w));
        lemma_join_push(ws.drop_first(), w);
        assert(join_words(ws.push(w)) =~= join_words(ws) + seq![' '] + w);
    }
}

// ---- fields ----

/// A field value is the tail of a word of the list.
pub proof fn lemma_field_clean(ws: Seq<Seq<char>>, key: Seq<char>)
    requires
        clean_words(ws),
        field(ws, key) is Some,
    ensures
        no_space(field(ws, key)->0),
    decreases ws.len(),
{
    if key.is_prefix_of(ws.last()) {
        assert(ws.last() == ws[ws.len() - 1]);
    } else {
        let p = ws.drop_last();
        assert forall|i: int| 0 <= i < p.len() implies (#[trigger] p[i]).len() > 0 && no_space(
            p[i],
        ) by {
            assert(p[i] == ws[i]);
        }
        lemma_field_clean(p, key);
    }
}

// ---- numbers ----

proof fn lemma_digit_char(d: nat)
    requires
        d < 10,
    ensures
        is_digit(digit_char(d)),
        digit_value(digit_char(d)) == d,
        digit_char(d) != '+',
        !is_space(digit_char(d)),
{
}

/// The decimal form of `n` is digits only, and reads back as `n`.
pub proof fn lemma_decimal(n: nat)
    ensures
        decimal(n).len() > 0,
        forall|i: int| 0 <= i < decimal(n).len() ==> is_digit(#[trigger] decimal(n)[i]),
        decimal(n)[0] != '+',
        no_space(decimal(n)),
        digits_value(decimal(n)) == n,
    decreases n,
{
    if n < 10 {
        lemma_digit_char(n);
        let d = decimal(n);
        assert(d.drop_last() =~= Seq::<char>::empty());
        assert(digits_value(d) == digits_value(d.drop_last()) * 10 + digit_value(d.last()));
    } else {
        lemma_decimal(n / 10);
        lemma_digit_char(n % 10);
        let d = decimal(n);
        assert(d.drop_last() =~= decimal(n / 10));
        assert(d[0] == decimal(n / 10)[0]);
        assert(d.last() == digit_char(n % 10));
        assert(digit_value(d.last()) == n % 10);
        assert(digits_value(d) == digits_value(decimal(n / 10)) * 10 + digit_value(d.last()));
        assert((n / 10) * 10 + n % 10 == n) by (nonlinear_arith);
        assert forall|i: int| 0 <= i < d.len() implies is_digit(#[trigger] d[i]) && !is_space(
            d[i],
        ) by {
            if i < d.len() - 1 {
                assert(d[i] == decimal(n / 10)[i]);
            }
        }
    }
}

/// Parsing the decimal form of a number that fits gives the number.
pub proof fn lemma_parse_decimal(n: nat, max: nat)
    requires
        n <= max,
    ensures
        parse_unsigned(decimal(n), max) == Some(n),
{
    lemma_decimal(n);
}

} // verus!
