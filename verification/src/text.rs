//! Verified text utilities for the configuration surface: decimal numbers,
//! whitespace trimming, comma-splitting and ASCII lowercasing.
//!
//! The grammar is deliberately small and fully specified: a number is one or
//! more ASCII decimal digits (leading zeros permitted) whose value fits the
//! stated bound; whitespace is the ASCII space, tab, carriage return and line
//! feed; keys are compared after ASCII lowercasing.

use vstd::prelude::*;

verus! {

/// An ASCII decimal digit.
pub open spec fn is_dec_digit(c: char) -> bool {
    48 <= (c as u32) <= 57
}

/// The numeric value of a digit character.
pub open spec fn dec_digit_val(c: char) -> nat
    recommends
        is_dec_digit(c),
{
    ((c as u32) - 48) as nat
}

/// Whether every character of `s` is a decimal digit.
pub open spec fn all_dec_digits(s: Seq<char>) -> bool {
    forall|i: int| 0 <= i < s.len() ==> is_dec_digit(#[trigger] s[i])
}

/// The value of a digit string, most significant digit first.
pub open spec fn dec_val(s: Seq<char>) -> nat
    decreases s.len(),
{
    if s.len() == 0 {
        0
    } else {
        dec_val(s.drop_last()) * 10 + dec_digit_val(s.last())
    }
}

/// The number denoted by `s`, when `s` is a nonempty digit string whose
/// value is at most `max`; `None` otherwise.
pub open spec fn parse_dec(s: Seq<char>, max: nat) -> Option<nat> {
    if s.len() > 0 && all_dec_digits(s) && dec_val(s) <= max {
        Some(dec_val(s))
    } else {
        None
    }
}

/// Extending a digit string to the right never decreases its value.
proof fn lemma_dec_val_extend(s: Seq<char>, t: Seq<char>)
    ensures
        dec_val(s + t) >= dec_val(s),
    decreases t.len(),
{
    if t.len() == 0 {
        assert(s + t =~= s);
    } else {
        assert((s + t).drop_last() =~= s + t.drop_last());
        lemma_dec_val_extend(s, t.drop_last());
    }
}

/// Parse a bounded decimal number: `Some` exactly when `s` is a nonempty
/// digit string whose value is at most `max`.
pub fn parse_bounded(s: &str, max: u64) -> (r: Option<u64>)
    ensures
        match r {
            Some(v) => parse_dec(s@, max as nat) == Some(v as nat),
            None => parse_dec(s@, max as nat) is None,
        },
{
    let n = s.unicode_len();
    if n == 0 {
        return None;
    }
    let mut acc: u64 = 0;
    let mut i: usize = 0;
    while i < n
        invariant
            0 < n,
            n == s@.len(),
            i <= n,
            all_dec_digits(s@.take(i as int)),
            acc as nat == dec_val(s@.take(i as int)),
            acc <= max,
        decreases n - i,
    {
        let c = s.get_char(i);
        let cu = c as u32;
        if cu < 48 || cu > 57 {
            assert(!is_dec_digit(s@[i as int]));
            return None;
        }
        let d = (cu - 48) as u64;
        proof {
            assert(s@.take(i + 1).drop_last() =~= s@.take(i as int));
            assert(s@.take(i + 1).last() == s@[i as int]);
            assert(dec_val(s@.take(i + 1)) == (acc as nat) * 10 + (d as nat));
            vstd::arithmetic::div_mod::lemma_fundamental_div_mod(max as int, 10);
        }
        let q = max / 10;
        let rm = max % 10;
        if acc > q || (acc == q && d > rm) {
            proof {
                assert(dec_val(s@.take(i + 1)) > max);
                assert(s@.take(i + 1) + s@.skip(i + 1) =~= s@);
                lemma_dec_val_extend(s@.take(i + 1), s@.skip(i + 1));
                assert(dec_val(s@) > max);
            }
            return None;
        }
        proof {
            assert((acc as nat) * 10 + (d as nat) <= max);
        }
        acc = acc * 10 + d;
        i = i + 1;
    }
    proof {
        assert(s@.take(n as int) =~= s@);
    }
    Some(acc)
}

/// The digit character of a value below ten.
pub open spec fn digit_char(d: nat) -> char {
    if d == 0 {
        '0'
    } else if d == 1 {
        '1'
    } else if d == 2 {
        '2'
    } else if d == 3 {
        '3'
    } else if d == 4 {
        '4'
    } else if d == 5 {
        '5'
    } else if d == 6 {
        '6'
    } else if d == 7 {
        '7'
    } else if d == 8 {
        '8'
    } else {
        '9'
    }
}

/// The decimal representation of `n`, most significant digit first, with no
/// leading zero (except for zero itself).
pub open spec fn dec_rep(n: nat) -> Seq<char>
    decreases n,
{
    if n < 10 {
        seq![digit_char(n)]
    } else {
        dec_rep(n / 10).push(digit_char(n % 10))
    }
}

/// The one-character string of a digit value.
fn digit_str(d: u64) -> (r: &'static str)
    requires
        d < 10,
    ensures
        r@ =~= seq![digit_char(d as nat)],
{
    proof {
        reveal_strlit("0");
        reveal_strlit("1");
        reveal_strlit("2");
        reveal_strlit("3");
        reveal_strlit("4");
        reveal_strlit("5");
        reveal_strlit("6");
        reveal_strlit("7");
        reveal_strlit("8");
        reveal_strlit("9");
    }
    if d == 0 {
        "0"
    } else if d == 1 {
        "1"
    } else if d == 2 {
        "2"
    } else if d == 3 {
        "3"
    } else if d == 4 {
        "4"
    } else if d == 5 {
        "5"
    } else if d == 6 {
        "6"
    } else if d == 7 {
        "7"
    } else if d == 8 {
        "8"
    } else {
        "9"
    }
}

/// Format `n` in decimal.
pub fn u64_to_dec(n: u64) -> (r: String)
    ensures
        r@ == dec_rep(n as nat),
    decreases n,
{
    if n < 10 {
        String::from_str(digit_str(n))
    } else {
        let mut s = u64_to_dec(n / 10);
        s.append(digit_str(n % 10));
        proof {
            assert(s@ =~= dec_rep(n as nat));
        }
        s
    }
}

/// ASCII whitespace, as trimmed from configuration values.
pub open spec fn is_space_char(c: char) -> bool {
    c == ' ' || c == '\t' || c == '\r' || c == '\n'
}

/// `s` without its leading whitespace.
pub open spec fn trim_left(s: Seq<char>) -> Seq<char>
    decreases s.len(),
{
    if s.len() > 0 && is_space_char(s.first()) {
        trim_left(s.drop_first())
    } else {
        s
    }
}

/// `s` without its trailing whitespace.
pub open spec fn trim_right(s: Seq<char>) -> Seq<char>
    decreases s.len(),
{
    if s.len() > 0 && is_space_char(s.last()) {
        trim_right(s.drop_last())
    } else {
        s
    }
}

/// `s` without leading and trailing whitespace.
pub open spec fn trim_spec(s: Seq<char>) -> Seq<char> {
    trim_right(trim_left(s))
}

/// Whether `c` is ASCII whitespace.
fn is_space(c: char) -> (r: bool)
    ensures
        r == is_space_char(c),
{
    c == ' ' || c == '\t' || c == '\r' || c == '\n'
}

/// Dropping the leading whitespace is skipping to the first non-space index.
proof fn lemma_trim_left_skip(s: Seq<char>, a: int)
    requires
        0 <= a <= s.len(),
        forall|k: int| 0 <= k < a ==> is_space_char(#[trigger] s[k]),
        a < s.len() ==> !is_space_char(s[a]),
    ensures
        trim_left(s) == s.skip(a),
    decreases a,
{
    if a == 0 {
        assert(s.skip(0) =~= s);
    } else {
        assert(is_space_char(s.first()));
        lemma_trim_left_skip(s.drop_first(), a - 1);
        assert(s.drop_first().skip(a - 1) =~= s.skip(a));
    }
}

/// Dropping the trailing whitespace is taking up to the last non-space index.
proof fn lemma_trim_right_take(s: Seq<char>, b: int)
    requires
        0 <= b <= s.len(),
        forall|k: int| b <= k < s.len() ==> is_space_char(#[trigger] s[k]),
        b > 0 ==> !is_space_char(s[b - 1]),
    ensures
        trim_right(s) == s.take(b),
    decreases s.len() - b,
{
    if b == s.len() {
        assert(s.take(b) =~= s);
        if s.len() > 0 {
            assert(!is_space_char(s.last()));
        }
    } else {
        assert(is_space_char(s.last()));
        lemma_trim_right_take(s.drop_last(), b);
        assert(s.drop_last().take(b) =~= s.take(b));
    }
}

/// Trim ASCII whitespace from both ends.
pub fn trim<'a>(s: &'a str) -> (r: &'a str)
    ensures
        r@ == trim_spec(s@),
{
    let n = s.unicode_len();
    let mut a: usize = 0;
    while a < n && is_space(s.get_char(a))
        invariant
            a <= n,
            n == s@.len(),
            forall|k: int| 0 <= k < a ==> is_space_char(#[trigger] s@[k]),
        decreases n - a,
    {
        a = a + 1;
    }
    let mut b: usize = n;
    while b > a && is_space(s.get_char(b - 1))
        invariant
            a <= b <= n,
            n == s@.len(),
            forall|k: int| b <= k < n ==> is_space_char(#[trigger] s@[k]),
        decreases b,
    {
        b = b - 1;
    }
    let r = s.substring_char(a, b);
    proof {
        lemma_trim_left_skip(s@, a as int);
        let u = s@.skip(a as int);
        assert(forall|k: int| b - a <= k < u.len() ==> is_space_char(#[trigger] u[k]));
        if b > a {
            assert(!is_space_char(u[b - a - 1]));
        }
        lemma_trim_right_take(u, b - a);
        assert(u.take(b - a) =~= s@.subrange(a as int, b as int));
    }
    r
}

/// Prepend `prefix` to the first piece of a nonempty piece list.
pub open spec fn glue_first(prefix: Seq<char>, pieces: Seq<Seq<char>>) -> Seq<Seq<char>>
    recommends
        pieces.len() > 0,
{
    seq![prefix + pieces[0]] + pieces.drop_first()
}

/// The pieces of `s` between its commas, in order. The empty string has one
/// empty piece; every comma separates two (possibly empty) pieces.
pub open spec fn split_commas(s: Seq<char>) -> Seq<Seq<char>>
    decreases s.len(),
{
    if s.len() == 0 {
        seq![Seq::<char>::empty()]
    } else if s.first() == ',' {
        seq![Seq::<char>::empty()] + split_commas(s.drop_first())
    } else {
        glue_first(seq![s.first()], split_commas(s.drop_first()))
    }
}

/// A split always yields at least one piece.
proof fn lemma_split_commas_len(s: Seq<char>)
    ensures
        split_commas(s).len() >= 1,
    decreases s.len(),
{
    if s.len() > 0 {
        lemma_split_commas_len(s.drop_first());
    }
}

/// The views of a sequence of strings.
spec fn str_views(v: Seq<String>) -> Seq<Seq<char>> {
    v.map_values(|x: String| x@)
}

/// Split `s` at its commas.
pub fn split_commas_exec(s: &str) -> (r: Vec<String>)
    ensures
        r@.map_values(|x: String| x@) == split_commas(s@),
{
    let n = s.unicode_len();
    let mut out: Vec<String> = Vec::new();
    let mut start: usize = 0;
    let mut i: usize = 0;
    proof {
        lemma_split_commas_len(s@.skip(0));
        assert(s@.subrange(0, 0) =~= Seq::<char>::empty());
        assert(glue_first(Seq::<char>::empty(), split_commas(s@.skip(0))) =~~= split_commas(
            s@.skip(0),
        ));
        assert(s@.skip(0) =~= s@);
        assert(str_views(out@) + glue_first(
            s@.subrange(0, 0),
            split_commas(s@.skip(0)),
        ) =~~= split_commas(s@));
    }
    while i < n
        invariant
            start <= i <= n,
            n == s@.len(),
            split_commas(s@.skip(i as int)).len() >= 1,
            split_commas(s@) == str_views(out@) + glue_first(
                s@.subrange(start as int, i as int),
                split_commas(s@.skip(i as int)),
            ),
        decreases n - i,
    {
        let ghost cur = s@.subrange(start as int, i as int);
        let ghost rest = s@.skip(i as int);
        let ghost rest2 = s@.skip(i + 1);
        proof {
            lemma_split_commas_len(rest2);
            assert(rest.len() > 0);
            assert(rest.first() == s@[i as int]);
            assert(rest.drop_first() =~= rest2);
        }
        let c = s.get_char(i);
        if c == ',' {
            let piece = String::from_str(s.substring_char(start, i));
            out.push(piece);
            proof {
                // split(rest) = [empty] + split(rest2); gluing cur yields
                // [cur] + split(rest2)
                assert(split_commas(rest) =~~= seq![Seq::<char>::empty()] + split_commas(rest2));
                assert(glue_first(cur, split_commas(rest)) =~~= seq![cur] + split_commas(rest2));
                assert(str_views(out@) =~~= str_views(out@.drop_last()) + seq![cur]);
                assert(s@.subrange(i + 1, i + 1) =~= Seq::<char>::empty());
                assert(glue_first(s@.subrange(i + 1, i + 1), split_commas(rest2)) =~~= split_commas(
                    rest2,
                ));
                assert(split_commas(s@) =~~= str_views(out@) + glue_first(
                    s@.subrange(i + 1, i + 1),
                    split_commas(rest2),
                ));
            }
            start = i + 1;
        } else {
            proof {
                // split(rest) = glue([c], split(rest2)); gluing cur merges
                // the pending piece with the head piece
                assert(split_commas(rest) =~~= glue_first(seq![s@[i as int]], split_commas(rest2)));
                assert(split_commas(rest2).len() >= 1);
                assert(glue_first(cur, glue_first(seq![s@[i as int]], split_commas(rest2)))
                    =~~= glue_first(cur.push(s@[i as int]), split_commas(rest2)));
                assert(s@.subrange(start as int, i + 1) =~= cur.push(s@[i as int]));
                assert(split_commas(s@) =~~= str_views(out@) + glue_first(
                    s@.subrange(start as int, i + 1),
                    split_commas(rest2),
                ));
            }
        }
        i = i + 1;
    }
    let last = String::from_str(s.substring_char(start, n));
    out.push(last);
    proof {
        let cur = s@.subrange(start as int, n as int);
        assert(s@.skip(n as int) =~= Seq::<char>::empty());
        assert(split_commas(Seq::<char>::empty()) =~~= seq![Seq::<char>::empty()]);
        assert(glue_first(cur, seq![Seq::<char>::empty()]) =~~= seq![cur]);
        assert(str_views(out@) =~~= str_views(out@.drop_last()) + seq![cur]);
        assert(str_views(out@) =~~= split_commas(s@));
    }
    out
}

/// ASCII lowercasing of one character; everything but `A`–`Z` is unchanged.
pub open spec fn lower_char(c: char) -> char {
    if c == 'A' {
        'a'
    } else if c == 'B' {
        'b'
    } else if c == 'C' {
        'c'
    } else if c == 'D' {
        'd'
    } else if c == 'E' {
        'e'
    } else if c == 'F' {
        'f'
    } else if c == 'G' {
        'g'
    } else if c == 'H' {
        'h'
    } else if c == 'I' {
        'i'
    } else if c == 'J' {
        'j'
    } else if c == 'K' {
        'k'
    } else if c == 'L' {
        'l'
    } else if c == 'M' {
        'm'
    } else if c == 'N' {
        'n'
    } else if c == 'O' {
        'o'
    } else if c == 'P' {
        'p'
    } else if c == 'Q' {
        'q'
    } else if c == 'R' {
        'r'
    } else if c == 'S' {
        's'
    } else if c == 'T' {
        't'
    } else if c == 'U' {
        'u'
    } else if c == 'V' {
        'v'
    } else if c == 'W' {
        'w'
    } else if c == 'X' {
        'x'
    } else if c == 'Y' {
        'y'
    } else if c == 'Z' {
        'z'
    } else {
        c
    }
}

/// ASCII lowercasing of a character sequence.
pub open spec fn lower_seq(s: Seq<char>) -> Seq<char> {
    s.map_values(|c: char| lower_char(c))
}

/// ASCII lowercasing of one character, executable.
fn lower_char_exec(c: char) -> (r: char)
    ensures
        r == lower_char(c),
{
    let cu = c as u32;
    if 65 <= cu && cu <= 90 {
        proof {
            assert(c == 'A' || c == 'B' || c == 'C' || c == 'D' || c == 'E' || c == 'F' || c == 'G'
                || c == 'H' || c == 'I' || c == 'J' || c == 'K' || c == 'L' || c == 'M' || c == 'N'
                || c == 'O' || c == 'P' || c == 'Q' || c == 'R' || c == 'S' || c == 'T' || c == 'U'
                || c == 'V' || c == 'W' || c == 'X' || c == 'Y' || c == 'Z');
        }
        match c {
            'A' => 'a',
            'B' => 'b',
            'C' => 'c',
            'D' => 'd',
            'E' => 'e',
            'F' => 'f',
            'G' => 'g',
            'H' => 'h',
            'I' => 'i',
            'J' => 'j',
            'K' => 'k',
            'L' => 'l',
            'M' => 'm',
            'N' => 'n',
            'O' => 'o',
            'P' => 'p',
            'Q' => 'q',
            'R' => 'r',
            'S' => 's',
            'T' => 't',
            'U' => 'u',
            'V' => 'v',
            'W' => 'w',
            'X' => 'x',
            'Y' => 'y',
            _ => 'z',
        }
    } else {
        c
    }
}

/// Whether `k`, lowercased, reads as `target` (already lower-case).
pub fn matches_key(k: &str, target: &str) -> (r: bool)
    ensures
        r == (lower_seq(k@) == target@),
{
    let nk = k.unicode_len();
    let nt = target.unicode_len();
    if nk != nt {
        proof {
            assert(lower_seq(k@).len() == k@.len());
        }
        return false;
    }
    let mut i: usize = 0;
    while i < nk
        invariant
            i <= nk,
            nk == k@.len(),
            nk == target@.len(),
            forall|j: int| 0 <= j < i ==> lower_char(#[trigger] k@[j]) == target@[j],
        decreases nk - i,
    {
        if lower_char_exec(k.get_char(i)) != target.get_char(i) {
            proof {
                assert(lower_seq(k@)[i as int] != target@[i as int]);
            }
            return false;
        }
        i = i + 1;
    }
    proof {
        assert(lower_seq(k@) =~= target@);
    }
    true
}

/// Whether two strings hold the same characters.
pub fn str_eq(a: &str, b: &str) -> (r: bool)
    ensures
        r == (a@ == b@),
{
    let na = a.unicode_len();
    let nb = b.unicode_len();
    if na != nb {
        return false;
    }
    let mut i: usize = 0;
    while i < na
        invariant
            i <= na,
            na == a@.len(),
            na == b@.len(),
            forall|j: int| 0 <= j < i ==> a@[j] == b@[j],
        decreases na - i,
    {
        if a.get_char(i) != b.get_char(i) {
            return false;
        }
        i = i + 1;
    }
    proof {
        assert(a@ =~= b@);
    }
    true
}

} // verus!
