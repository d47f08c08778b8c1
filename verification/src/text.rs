//! Characters, words, lines and numbers: the text vocabulary that the other modules'
//! contracts are written in, with the functions that compute it.
use vstd::prelude::*;

verus! {

/// `String::push` appends one character at the end of the string.
pub assume_specification[ String::push ](s: &mut String, c: char)
    ensures
        final(s)@ == old(s)@.push(c),
;

/// The characters of a string, in order.
pub fn chars_of(s: &str) -> (r: Vec<char>)
    ensures
        r@ == s@,
{
    let mut r: Vec<char> = Vec::new();
    for c in it: s.chars()
        invariant
            r@ == it.seq().take(it.index() as int),
    {
        r.push(c);
    }
    r
}

/// The string made of the given characters.
pub fn string_of(s: &[char]) -> (r: String)
    ensures
        r@ == s@,
{
    let mut r = String::new();
    let mut i: usize = 0;
    while i < s.len()
        invariant
            i <= s.len(),
            r@ == s@.take(i as int),
        decreases s.len() - i,
    {
        r.push(s[i]);
        i += 1;
        assert(s@.take(i as int) =~= s@.take(i - 1).push(s@[i - 1]));
    }
    r
}

/// Whether two strings hold the same characters.
pub fn same_text(a: &str, b: &str) -> (r: bool)
    ensures
        r == (a@ == b@),
{
    a.to_string() == b.to_string()
}

/// Whether two character slices are equal.
pub fn same_chars(a: &[char], b: &[char]) -> (r: bool)
    ensures
        r == (a@ == b@),
{
    if a.len() != b.len() {
        return false;
    }
    let mut i: usize = 0;
    while i < a.len()
        invariant
            i <= a.len(),
            a.len() == b.len(),
            a@.take(i as int) =~= b@.take(i as int),
        decreases a.len() - i,
    {
        if a[i] != b[i] {
            assert(a@[i as int] != b@[i as int]);
            return false;
        }
        i += 1;
        assert(a@.take(i as int) =~= a@.take(i - 1).push(a@[i - 1]));
        assert(b@.take(i as int) =~= b@.take(i - 1).push(b@[i - 1]));
    }
    assert(a@.take(i as int) =~= a@);
    assert(b@.take(i as int) =~= b@);
    true
}

/// Unicode `White_Space`.
pub open spec fn is_space(c: char) -> bool {
    let n = c as int;
    ||| 0x09 <= n <= 0x0d
    ||| n == 0x20
    ||| n == 0x85
    ||| n == 0xa0
    ||| n == 0x1680
    ||| 0x2000 <= n <= 0x200a
    ||| n == 0x2028
    ||| n == 0x2029
    ||| n == 0x202f
    ||| n == 0x205f
    ||| n == 0x3000
}

pub fn char_is_space(c: char) -> (r: bool)
    ensures
        r == is_space(c),
{
    let n: u32 = c as u32;
    (0x09 <= n && n <= 0x0d) || n == 0x20 || n == 0x85 || n == 0xa0 || n == 0x1680 || (0x2000 <= n
        && n <= 0x200a) || n == 0x2028 || n == 0x2029 || n == 0x202f || n == 0x205f || n == 0x3000
}

/// `s` without its leading white space.
pub open spec fn trim_start(s: Seq<char>) -> Seq<char>
    decreases s.len(),
{
    if s.len() > 0 && is_space(s[0]) {
        trim_start(s.skip(1))
    } else {
        s
    }
}

/// `s` without its trailing white space.
pub open spec fn trim_end(s: Seq<char>) -> Seq<char>
    decreases s.len(),
{
    if s.len() > 0 && is_space(s.last()) {
        trim_end(s.drop_last())
    } else {
        s
    }
}

/// `s` without white space at either end.
pub open spec fn trim(s: Seq<char>) -> Seq<char> {
    trim_end(trim_start(s))
}

pub fn trim_start_chars(s: &[char]) -> (r: &[char])
    ensures
        r@ == trim_start(s@),
{
    let mut i: usize = 0;
    assert(s@.skip(0) =~= s@);
    while i < s.len() && char_is_space(s[i])
        invariant
            i <= s.len(),
            trim_start(s@) == trim_start(s@.skip(i as int)),
        decreases s.len() - i,
    {
        assert(s@.skip(i as int).skip(1) =~= s@.skip(i + 1));
        i += 1;
    }
    let r = &s[i..s.len()];
    assert(r@ =~= s@.skip(i as int));
    r
}

pub fn trim_end_chars(s: &[char]) -> (r: &[char])
    ensures
        r@ == trim_end(s@),
{
    let mut i: usize = s.len();
    assert(s@.take(i as int) =~= s@);
    while i > 0 && char_is_space(s[i - 1])
        invariant
            i <= s.len(),
            trim_end(s@) == trim_end(s@.take(i as int)),
        decreases i,
    {
        assert(s@.take(i as int).drop_last() =~= s@.take(i - 1));
        i -= 1;
    }
    let r = &s[0..i];
    assert(r@ =~= s@.take(i as int));
    r
}

pub fn trim_chars(s: &[char]) -> (r: &[char])
    ensures
        r@ == trim(s@),
{
    trim_end_chars(trim_start_chars(s))
}

/// The place of the first `c` in `s`, or the length of `s` where there is none.
pub open spec fn first_of(s: Seq<char>, c: char) -> int
    decreases s.len(),
{
    if s.len() == 0 || s[0] == c {
        0
    } else {
        1 + first_of(s.skip(1), c)
    }
}

pub proof fn lemma_first_of(s: Seq<char>, c: char)
    ensures
        0 <= first_of(s, c) <= s.len(),
        forall|i: int| 0 <= i < first_of(s, c) ==> s[i] != c,
        first_of(s, c) < s.len() ==> s[first_of(s, c)] == c,
        s.contains(c) <==> first_of(s, c) < s.len(),
    decreases s.len(),
{
    if s.len() == 0 || s[0] == c {
    } else {
        lemma_first_of(s.skip(1), c);
        let n = first_of(s.skip(1), c);
        assert forall|i: int| 0 <= i < 1 + n implies s[i] != c by {
            if i > 0 {
                assert(s.skip(1)[i - 1] == s[i]);
            }
        }
        if n < s.skip(1).len() {
            assert(s.skip(1)[n] == s[n + 1]);
        }
    }
}

pub fn find_char(s: &[char], c: char) -> (r: usize)
    ensures
        r == first_of(s@, c),
        r <= s.len(),
{
    let mut i: usize = 0;
    assert(s@.skip(0) =~= s@);
    while i < s.len() && s[i] != c
        invariant
            i <= s.len(),
            first_of(s@, c) == i + first_of(s@.skip(i as int), c),
        decreases s.len() - i,
    {
        assert(s@.skip(i as int).skip(1) =~= s@.skip(i + 1));
        i += 1;
    }
    i
}

/// The pieces of `s` between the occurrences of `c`.
pub open spec fn split(s: Seq<char>, c: char) -> Seq<Seq<char>>
    decreases s.len(),
{
    let n = first_of(s, c);
    if n >= s.len() {
        seq![s]
    } else {
        proof {
            lemma_first_of(s, c);
        }
        seq![s.take(n)] + split(s.skip(n + 1), c)
    }
}

/// The lines of `s`, each without its line feed and the carriage return before it.
pub open spec fn lines(s: Seq<char>) -> Seq<Seq<char>>
    decreases s.len(),
{
    let n = first_of(s, '\n');
    if s.len() == 0 {
        Seq::empty()
    } else if n >= s.len() {
        seq![s]
    } else {
        proof {
            lemma_first_of(s, '\n');
        }
        seq![strip_return(s.take(n))] + lines(s.skip(n + 1))
    }
}

/// `s` without the carriage return that ends it, where one does.
pub open spec fn strip_return(s: Seq<char>) -> Seq<char> {
    if s.len() > 0 && s.last() == '\r' {
        s.drop_last()
    } else {
        s
    }
}

/// The characters of each piece.
pub open spec fn views(v: Seq<Vec<char>>) -> Seq<Seq<char>> {
    v.map_values(|x: Vec<char>| x@)
}

pub fn copy_chars(s: &[char]) -> (r: Vec<char>)
    ensures
        r@ == s@,
{
    let mut r: Vec<char> = Vec::new();
    let mut i: usize = 0;
    while i < s.len()
        invariant
            i <= s.len(),
            r@ == s@.take(i as int),
        decreases s.len() - i,
    {
        r.push(s[i]);
        i += 1;
        assert(s@.take(i as int) =~= s@.take(i - 1).push(s@[i - 1]));
    }
    r
}

proof fn lemma_views_push(v: Seq<Vec<char>>, x: Vec<char>)
    ensures
        views(v.push(x)) == views(v).push(x@),
{
    assert(views(v.push(x)) =~= views(v).push(x@));
}

pub fn split_chars(s: &[char], c: char) -> (r: Vec<Vec<char>>)
    ensures
        views(r@) == split(s@, c),
        r.len() >= 1,
{
    let mut r: Vec<Vec<char>> = Vec::new();
    let mut rest: &[char] = s;
    assert(views(r@) =~= Seq::empty());
    loop
        invariant_except_break
            split(s@, c) =~= views(r@) + split(rest@, c),
        ensures
            r.len() >= 1,
            views(r@) == split(s@, c),
        decreases rest.len(),
    {
        let n = find_char(rest, c);
        proof {
            lemma_first_of(rest@, c);
        }
        if n >= rest.len() {
            let piece = copy_chars(rest);
            proof {
                lemma_views_push(r@, piece);
            }
            r.push(piece);
            break;
        }
        let piece = copy_chars(&rest[0..n]);
        proof {
            lemma_views_push(r@, piece);
            assert(piece@ =~= rest@.take(n as int));
        }
        r.push(piece);
        let ghost before = rest@;
        rest = &rest[n + 1..rest.len()];
        assert(rest@ =~= before.skip(n + 1));
    }
    r
}

pub fn lines_of(s: &[char]) -> (r: Vec<Vec<char>>)
    ensures
        views(r@) == lines(s@),
{
    let mut r: Vec<Vec<char>> = Vec::new();
    let mut rest: &[char] = s;
    assert(views(r@) =~= Seq::empty());
    while rest.len() > 0
        invariant
            lines(s@) =~= views(r@) + lines(rest@),
        decreases rest.len(),
    {
        let n = find_char(rest, '\n');
        proof {
            lemma_first_of(rest@, '\n');
        }
        if n >= rest.len() {
            let piece = copy_chars(rest);
            proof {
                lemma_views_push(r@, piece);
            }
            r.push(piece);
            let ghost before = rest@;
            rest = &rest[n..rest.len()];
            assert(lines(before) == seq![before]);
            assert(rest@ =~= Seq::empty());
        } else {
            let end = if n > 0 && rest[n - 1] == '\r' {
                n - 1
            } else {
                n
            };
            let piece = copy_chars(&rest[0..end]);
            proof {
                lemma_views_push(r@, piece);
                assert(piece@ =~= strip_return(rest@.take(n as int)));
            }
            r.push(piece);
            let ghost before = rest@;
            rest = &rest[n + 1..rest.len()];
            assert(rest@ =~= before.skip(n + 1));
        }
    }
    r
}

/// The number of characters of `s` before its first white space.
pub open spec fn word_len(s: Seq<char>) -> int
    decreases s.len(),
{
    if s.len() == 0 || is_space(s[0]) {
        0
    } else {
        1 + word_len(s.skip(1))
    }
}

pub proof fn lemma_word_len(s: Seq<char>)
    ensures
        0 <= word_len(s) <= s.len(),
        s.len() > 0 && !is_space(s[0]) ==> word_len(s) > 0,
    decreases s.len(),
{
    if s.len() == 0 || is_space(s[0]) {
    } else {
        lemma_word_len(s.skip(1));
    }
}

pub proof fn lemma_trim_start_len(s: Seq<char>)
    ensures
        trim_start(s).len() <= s.len(),
        trim_start(s).len() > 0 ==> !is_space(trim_start(s)[0]),
    decreases s.len(),
{
    if s.len() > 0 && is_space(s[0]) {
        lemma_trim_start_len(s.skip(1));
    }
}

/// The words of `s`: its longest runs without white space, in order.
pub open spec fn words(s: Seq<char>) -> Seq<Seq<char>>
    decreases s.len(),
{
    let t = trim_start(s);
    if t.len() == 0 {
        Seq::empty()
    } else {
        proof {
            lemma_trim_start_len(s);
            lemma_word_len(t);
        }
        seq![t.take(word_len(t))] + words(t.skip(word_len(t)))
    }
}

pub fn words_of(s: &[char]) -> (r: Vec<Vec<char>>)
    ensures
        views(r@) == words(s@),
{
    let mut r: Vec<Vec<char>> = Vec::new();
    let mut rest: &[char] = s;
    assert(views(r@) =~= Seq::empty());
    loop
        invariant
            words(s@) =~= views(r@) + words(rest@),
        ensures
            views(r@) == words(s@),
        decreases rest.len(),
    {
        let t = trim_start_chars(rest);
        proof {
            lemma_trim_start_len(rest@);
            lemma_word_len(t@);
        }
        if t.len() == 0 {
            assert(words(rest@) =~= Seq::empty());
            break;
        }
        let n = first_word_len(t);
        let piece = copy_chars(&t[0..n]);
        proof {
            lemma_views_push(r@, piece);
            assert(piece@ =~= t@.take(n as int));
        }
        r.push(piece);
        rest = &t[n..t.len()];
        assert(rest@ =~= t@.skip(n as int));
    }
    r
}

pub fn first_word_len(s: &[char]) -> (r: usize)
    ensures
        r == word_len(s@),
        r <= s.len(),
{
    let mut i: usize = 0;
    assert(s@.skip(0) =~= s@);
    while i < s.len() && !char_is_space(s[i])
        invariant
            i <= s.len(),
            word_len(s@) == i + word_len(s@.skip(i as int)),
        decreases s.len() - i,
    {
        assert(s@.skip(i as int).skip(1) =~= s@.skip(i + 1));
        i += 1;
    }
    i
}

/// Whether `p` begins `s`.
pub open spec fn starts_with(s: Seq<char>, p: Seq<char>) -> bool {
    p.len() <= s.len() && s.take(p.len() as int) == p
}

pub fn chars_start_with(s: &[char], p: &[char]) -> (r: bool)
    ensures
        r == starts_with(s@, p@),
{
    if p.len() > s.len() {
        return false;
    }
    let head = &s[0..p.len()];
    assert(head@ =~= s@.take(p@.len() as int));
    same_chars(head, p)
}

/// Whether `p` occurs somewhere in `s`.
pub open spec fn has_text(s: Seq<char>, p: Seq<char>) -> bool {
    exists|i: int| 0 <= i <= s.len() && #[trigger] starts_with(s.skip(i), p)
}

pub fn chars_have(s: &[char], p: &[char]) -> (r: bool)
    ensures
        r == has_text(s@, p@),
{
    let mut i: usize = 0;
    loop
        invariant
            i <= s.len(),
            forall|j: int| 0 <= j < i ==> !#[trigger] starts_with(s@.skip(j), p@),
        decreases s.len() - i,
    {
        let tail = &s[i..s.len()];
        assert(tail@ =~= s@.skip(i as int));
        if chars_start_with(tail, p) {
            return true;
        }
        if i >= s.len() {
            return false;
        }
        i += 1;
    }
}

/// Whether a string occurs in another.
pub fn text_has(s: &str, p: &str) -> (r: bool)
    ensures
        r == has_text(s@, p@),
{
    let a = chars_of(s);
    let b = chars_of(p);
    chars_have(a.as_slice(), b.as_slice())
}

/// The digit that a character code stands for in base `radix`, at most 36; -1 where it stands for
/// none.
pub open spec fn digit(code: int, radix: int) -> int {
    let d = if 0x30 <= code <= 0x39 {
        code - 0x30
    } else if 0x41 <= code <= 0x5a {
        code - 0x41 + 10
    } else if 0x61 <= code <= 0x7a {
        code - 0x61 + 10
    } else {
        -1
    };
    if d < radix {
        d
    } else {
        -1
    }
}

/// The digit of a character code, or `None`.
pub fn digit_of(code: u32, radix: u32) -> (r: Option<u32>)
    ensures
        match r {
            Some(d) => d == digit(code as int, radix as int) && d < radix && d < 36,
            None => digit(code as int, radix as int) == -1,
        },
{
    let d: u32 = if 0x30 <= code && code <= 0x39 {
        code - 0x30
    } else if 0x41 <= code && code <= 0x5a {
        code - 0x41 + 10
    } else if 0x61 <= code && code <= 0x7a {
        code - 0x61 + 10
    } else {
        return None;
    };
    if d < radix {
        Some(d)
    } else {
        None
    }
}

pub open spec fn all_digits(s: Seq<u32>, radix: int) -> bool {
    forall|i: int| 0 <= i < s.len() ==> #[trigger] digit(s[i] as int, radix) >= 0
}

/// The number that the digits `s` write in base `radix`.
pub open spec fn digits_value(s: Seq<u32>, radix: int) -> int
    decreases s.len(),
{
    if s.len() == 0 {
        0
    } else {
        digits_value(s.drop_last(), radix) * radix + digit(s.last() as int, radix)
    }
}

/// The unsigned number at most `max` that `s` writes in base `radix`: at least one digit, with an
/// optional plus sign before it.
pub open spec fn unsigned_value(s: Seq<u32>, radix: int, max: int) -> Option<int> {
    let d = if s.len() > 0 && s[0] == 0x2b {
        s.skip(1)
    } else {
        s
    };
    if d.len() > 0 && all_digits(d, radix) && digits_value(d, radix) <= max {
        Some(digits_value(d, radix))
    } else {
        None
    }
}

proof fn lemma_digits_mono(s: Seq<u32>, n: int, radix: int)
    requires
        0 <= n <= s.len(),
        2 <= radix,
        all_digits(s, radix),
    ensures
        0 <= digits_value(s.take(n), radix) <= digits_value(s, radix),
    decreases s.len() - n,
{
    if n == s.len() {
        assert(s.take(n) =~= s);
        lemma_digits_nonneg(s, radix);
    } else {
        lemma_digits_mono(s, n + 1, radix);
        assert(s.take(n + 1).drop_last() =~= s.take(n));
        assert(s.take(n + 1).last() == s[n]);
        assert(digit(s[n] as int, radix) >= 0);
        let v = digits_value(s.take(n), radix);
        assert forall|i: int| 0 <= i < s.take(n).len() implies #[trigger] digit(
            s.take(n)[i] as int,
            radix,
        ) >= 0 by {
            assert(digit(s[i] as int, radix) >= 0);
        }
        lemma_digits_nonneg(s.take(n), radix);
        assert(v <= v * radix) by (nonlinear_arith)
            requires
                0 <= v,
                2 <= radix,
        ;
    }
}

proof fn lemma_digits_nonneg(s: Seq<u32>, radix: int)
    requires
        2 <= radix,
        all_digits(s, radix),
    ensures
        0 <= digits_value(s, radix),
    decreases s.len(),
{
    if s.len() > 0 {
        let t = s.drop_last();
        assert forall|i: int| 0 <= i < t.len() implies #[trigger] digit(t[i] as int, radix)
            >= 0 by {
            assert(digit(s[i] as int, radix) >= 0);
        }
        lemma_digits_nonneg(t, radix);
        let v = digits_value(t, radix);
        assert(digit(s[s.len() - 1] as int, radix) >= 0);
        assert(0 <= v * radix) by (nonlinear_arith)
            requires
                0 <= v,
                2 <= radix,
        ;
    }
}

/// Digits in base `radix` as a number, with no sign; `None` without a digit, with anything that is
/// none, or above `max`.
pub fn parse_digits(s: &[u32], radix: u32, max: u64) -> (r: Option<u64>)
    requires
        2 <= radix <= 36,
        max <= 0x1_0000_0000,
    ensures
        match r {
            Some(n) => s@.len() > 0 && all_digits(s@, radix as int) && n == digits_value(
                s@,
                radix as int,
            ) && n <= max,
            None => s@.len() == 0 || !all_digits(s@, radix as int) || digits_value(
                s@,
                radix as int,
            ) > max,
        },
{
    if s.len() == 0 {
        return None;
    }
    let mut i: usize = 0;
    let mut n: u64 = 0;
    let mut over = false;
    assert(s@.take(0) =~= Seq::empty());
    while i < s.len()
        invariant
            i <= s.len(),
            2 <= radix <= 36,
            max <= 0x1_0000_0000,
            all_digits(s@.take(i as int), radix as int),
            !over ==> n == digits_value(s@.take(i as int), radix as int) && n <= max,
            over ==> digits_value(s@.take(i as int), radix as int) > max,
        decreases s.len() - i,
    {
        let ghost head = s@.take(i as int);
        let ghost next = s@.take(i + 1);
        proof {
            assert(next.drop_last() =~= head);
            assert(next.last() == s@[i as int]);
        }
        match digit_of(s[i], radix) {
            None => {
                assert(digit(s@[i as int] as int, radix as int) < 0);
                return None;
            },
            Some(d) => {
                proof {
                    assert forall|j: int| 0 <= j < next.len() implies #[trigger] digit(
                        next[j] as int,
                        radix as int,
                    ) >= 0 by {
                        if j < head.len() {
                            assert(digit(head[j] as int, radix as int) >= 0);
                        }
                    }
                    lemma_digits_mono(next, i as int, radix as int);
                    assert(next.take(i as int) =~= head);
                }
                if !over {
                    assert(n * radix <= 0x1_0000_0000 * 36) by (nonlinear_arith)
                        requires
                            0 <= n <= 0x1_0000_0000,
                            2 <= radix <= 36,
                    ;
                    n = n * (radix as u64) + d as u64;
                    if n > max {
                        over = true;
                    }
                }
            },
        }
        i += 1;
    }
    assert(s@.take(i as int) =~= s@);
    if over {
        None
    } else {
        Some(n)
    }
}

/// An unsigned number, as `unsigned_value` describes it.
pub fn parse_unsigned(s: &[u32], radix: u32, max: u64) -> (r: Option<u64>)
    requires
        2 <= radix <= 36,
        max <= 0x1_0000_0000,
    ensures
        match r {
            Some(n) => unsigned_value(s@, radix as int, max as int) == Some(n as int),
            None => unsigned_value(s@, radix as int, max as int) is None,
        },
{
    if s.len() > 0 && s[0] == 0x2b {
        let d = &s[1..s.len()];
        assert(d@ =~= s@.skip(1));
        parse_digits(d, radix, max)
    } else {
        parse_digits(s, radix, max)
    }
}

/// The character codes of `s`.
pub open spec fn codes(s: Seq<char>) -> Seq<u32> {
    s.map_values(|c: char| c as u32)
}

pub fn codes_of(s: &[char]) -> (r: Vec<u32>)
    ensures
        r@ == codes(s@),
{
    let mut r: Vec<u32> = Vec::new();
    let mut i: usize = 0;
    while i < s.len()
        invariant
            i <= s.len(),
            r@ == codes(s@.take(i as int)),
        decreases s.len() - i,
    {
        r.push(s[i] as u32);
        i += 1;
        assert(codes(s@.take(i as int)) =~= codes(s@.take(i - 1)).push(s@[i - 1] as u32));
    }
    assert(s@.take(i as int) =~= s@);
    r
}

/// The signed 32-bit number that `s` writes in base 10: at least one digit, with an optional sign
/// before it.
pub open spec fn i32_value(s: Seq<char>) -> Option<int> {
    let c = codes(s);
    if c.len() > 0 && c[0] == 0x2d {
        let d = c.skip(1);
        if d.len() > 0 && all_digits(d, 10) && digits_value(d, 10) <= 0x8000_0000 {
            Some(-digits_value(d, 10))
        } else {
            None
        }
    } else {
        unsigned_value(c, 10, 0x7fff_ffff)
    }
}

pub fn parse_i32(s: &[char]) -> (r: Option<i32>)
    ensures
        match r {
            Some(n) => i32_value(s@) == Some(n as int),
            None => i32_value(s@) is None,
        },
{
    let c = codes_of(s);
    let c = c.as_slice();
    if c.len() > 0 && c[0] == 0x2d {
        let d = &c[1..c.len()];
        assert(d@ =~= codes(s@).skip(1));
        match parse_digits(d, 10, 0x8000_0000) {
            Some(n) => Some((-(n as i64)) as i32),
            None => None,
        }
    } else {
        match parse_unsigned(c, 10, 0x7fff_ffff) {
            Some(n) => Some(n as i32),
            None => None,
        }
    }
}

/// The character of a decimal digit.
pub open spec fn digit_char(d: nat) -> char {
    (0x30 + d) as char
}

/// `n` in decimal, without leading zeros.
pub open spec fn decimal(n: nat) -> Seq<char>
    decreases n,
{
    if n < 10 {
        seq![digit_char(n)]
    } else {
        decimal(n / 10).push(digit_char(n % 10))
    }
}

/// `n` in decimal, with a minus sign where it is negative.
pub open spec fn signed_decimal(n: int) -> Seq<char> {
    if n < 0 {
        seq!['-'] + decimal((-n) as nat)
    } else {
        decimal(n as nat)
    }
}

pub fn push_decimal(out: &mut String, n: u64)
    ensures
        final(out)@ == old(out)@ + decimal(n as nat),
    decreases n,
{
    if n >= 10 {
        push_decimal(out, n / 10);
    }
    let d: u8 = (n % 10) as u8;
    out.push((0x30 + d) as char);
    assert(out@ =~= old(out)@ + decimal(n as nat));
}

pub fn push_signed(out: &mut String, n: i64)
    requires
        n > i64::MIN,
    ensures
        final(out)@ == old(out)@ + signed_decimal(n as int),
{
    if n < 0 {
        out.push('-');
        push_decimal(out, (-n) as u64);
        assert(out@ =~= old(out)@ + signed_decimal(n as int));
    } else {
        push_decimal(out, n as u64);
    }
}

/// A copy of a list of strings.
pub fn copy_strings(v: &Vec<String>) -> (r: Vec<String>)
    ensures
        r@.len() == v@.len(),
        forall|i: int| 0 <= i < v@.len() ==> (#[trigger] r@[i])@ == v@[i]@,
{
    let mut r: Vec<String> = Vec::new();
    let mut i: usize = 0;
    while i < v.len()
        invariant
            i <= v.len(),
            r@.len() == i,
            forall|j: int| 0 <= j < i ==> (#[trigger] r@[j])@ == v@[j]@,
        decreases v.len() - i,
    {
        r.push(v[i].clone());
        i += 1;
    }
    r
}

/// The characters of each string of a list.
pub open spec fn texts(v: Seq<String>) -> Seq<Seq<char>> {
    v.map_values(|s: String| s@)
}

/// The place of the first string equal to `t`, or `None`.
pub fn position_of(v: &Vec<String>, t: &str) -> (r: Option<usize>)
    ensures
        match r {
            Some(i) => i < v@.len() && v@[i as int]@ == t@ && forall|j: int|
                0 <= j < i ==> (#[trigger] v@[j])@ != t@,
            None => forall|j: int| 0 <= j < v@.len() ==> (#[trigger] v@[j])@ != t@,
        },
{
    let mut i: usize = 0;
    while i < v.len()
        invariant
            i <= v.len(),
            forall|j: int| 0 <= j < i ==> (#[trigger] v@[j])@ != t@,
        decreases v.len() - i,
    {
        if same_text(v[i].as_str(), t) {
            return Some(i);
        }
        i += 1;
    }
    None
}

// --- lines put together ---

/// Each of the lines with a line feed behind it.
pub open spec fn terminated(lines: Seq<Seq<char>>) -> Seq<char>
    decreases lines.len(),
{
    if lines.len() == 0 {
        Seq::empty()
    } else {
        terminated(lines.drop_last()) + lines.last().push('\n')
    }
}

/// The lines with a line feed between two of them.
pub open spec fn joined(lines: Seq<Seq<char>>) -> Seq<char> {
    if lines.len() == 0 {
        Seq::empty()
    } else {
        terminated(lines.drop_last()) + lines.last()
    }
}

/// A line that reading gives back as it is: without a line feed, and without a carriage return at
/// its end.
pub open spec fn is_line(s: Seq<char>) -> bool {
    !s.contains('\n') && (s.len() > 0 ==> s.last() != '\r')
}

proof fn lemma_terminated_front(lines: Seq<Seq<char>>)
    requires
        lines.len() > 0,
    ensures
        terminated(lines) == lines[0].push('\n') + terminated(lines.skip(1)),
    decreases lines.len(),
{
    if lines.len() == 1 {
        assert(lines.drop_last() =~= Seq::empty());
        assert(lines.skip(1) =~= Seq::empty());
        assert(terminated(lines) =~= lines[0].push('\n') + terminated(lines.skip(1)));
    } else {
        let front = lines.drop_last();
        lemma_terminated_front(front);
        assert(front.skip(1) =~= lines.skip(1).drop_last());
        assert(lines.skip(1).last() == lines.last());
        assert(front[0] == lines[0]);
        assert(terminated(lines) =~= lines[0].push('\n') + terminated(lines.skip(1)));
    }
}

/// The place of the first `c` behind a part that has none.
pub proof fn lemma_first_of_behind(a: Seq<char>, c: char, b: Seq<char>)
    requires
        !a.contains(c),
    ensures
        first_of(a + seq![c] + b, c) == a.len(),
{
    let s = a + seq![c] + b;
    lemma_first_of(s, c);
    let n = first_of(s, c);
    assert(s[a.len() as int] == c);
    if n < a.len() {
        assert(a[n] == s[n]);
        assert(a.contains(c));
    }
}

/// Lines that were put together are read back.
pub proof fn lemma_lines_terminated(all: Seq<Seq<char>>)
    requires
        forall|i: int| 0 <= i < all.len() ==> is_line(#[trigger] all[i]),
    ensures
        lines(terminated(all)) == all,
    decreases all.len(),
{
    if all.len() == 0 {
        assert(lines(terminated(all)) =~= all);
    } else {
        let rest = all.skip(1);
        assert forall|i: int| 0 <= i < rest.len() implies is_line(#[trigger] rest[i]) by {
            assert(rest[i] == all[i + 1]);
        }
        lemma_lines_terminated(rest);
        lemma_terminated_front(all);
        let s = terminated(all);
        let head = all[0];
        assert(s =~= head + seq!['\n'] + terminated(rest));
        lemma_first_of_behind(head, '\n', terminated(rest));
        let n = first_of(s, '\n');
        assert(s.take(n) =~= head);
        assert(s.skip(n + 1) =~= terminated(rest));
        assert(is_line(head));
        assert(lines(s) =~= all);
    }
}

/// What begins and ends without white space is not trimmed.
pub proof fn lemma_trim_keeps(s: Seq<char>)
    requires
        s.len() > 0,
        !is_space(s[0]),
        !is_space(s.last()),
    ensures
        trim_start(s) == s,
        trim_end(s) == s,
        trim(s) == s,
{
}

proof fn lemma_trim_start_keeps_others(s: Seq<char>, c: char)
    requires
        !is_space(c),
        s.contains(c),
    ensures
        trim_start(s).contains(c),
    decreases s.len(),
{
    if s.len() > 0 && is_space(s[0]) {
        let i = s.index_of(c);
        assert(i > 0);
        assert(s.skip(1)[i - 1] == c);
        lemma_trim_start_keeps_others(s.skip(1), c);
    }
}

proof fn lemma_trim_end_keeps_others(s: Seq<char>, c: char)
    requires
        !is_space(c),
        s.contains(c),
    ensures
        trim_end(s).contains(c),
    decreases s.len(),
{
    if s.len() > 0 && is_space(s.last()) {
        let i = s.index_of(c);
        assert(i < s.len() - 1);
        assert(s.drop_last()[i] == c);
        lemma_trim_end_keeps_others(s.drop_last(), c);
    }
}

/// Trimming takes nothing but white space.
pub proof fn lemma_trim_keeps_others(s: Seq<char>, c: char)
    requires
        !is_space(c),
        s.contains(c),
    ensures
        trim(s).contains(c),
        trim_start(s).contains(c),
{
    lemma_trim_start_keeps_others(s, c);
    lemma_trim_end_keeps_others(trim_start(s), c);
}

/// Trimming the start twice is trimming it once.
pub proof fn lemma_trim_start_twice(s: Seq<char>)
    ensures
        trim_start(trim_start(s)) == trim_start(s),
    decreases s.len(),
{
    if s.len() > 0 && is_space(s[0]) {
        lemma_trim_start_twice(s.skip(1));
    }
}

// --- numbers written and read ---

proof fn lemma_codes_push(s: Seq<char>, c: char)
    ensures
        codes(s.push(c)) == codes(s).push(c as u32),
{
    assert(codes(s.push(c)) =~= codes(s).push(c as u32));
}

/// What a number in decimal is made of, and what it is read as.
pub proof fn lemma_decimal(n: nat)
    ensures
        decimal(n).len() > 0,
        forall|i: int|
            0 <= i < decimal(n).len() ==> 0x30 <= (#[trigger] decimal(n)[i]) as int <= 0x39,
        all_digits(codes(decimal(n)), 10),
        digits_value(codes(decimal(n)), 10) == n,
    decreases n,
{
    let s = decimal(n);
    let c = codes(s);
    if n < 10 {
        assert(s =~= Seq::<char>::empty().push(digit_char(n)));
        lemma_codes_push(Seq::empty(), digit_char(n));
        assert(codes(Seq::<char>::empty()) =~= Seq::empty());
        assert(c.drop_last() =~= Seq::empty());
        assert(c.last() == 0x30 + n);
        assert(digits_value(c.drop_last(), 10) == 0);
    } else {
        lemma_decimal(n / 10);
        let front = decimal(n / 10);
        lemma_codes_push(front, digit_char(n % 10));
        assert(c.drop_last() =~= codes(front));
        assert(c.last() == 0x30 + n % 10);
    }
}

/// A number in decimal is read back, up to the limit of its type.
pub proof fn lemma_i32_written_and_read(n: nat)
    requires
        n <= 0x7fff_ffff,
    ensures
        i32_value(decimal(n)) == Some(n as int),
{
    lemma_decimal(n);
    let c = codes(decimal(n));
    assert(c[0] == decimal(n)[0] as u32);
    assert(c.len() > 0);
}

// --- bytes ---

/// The number of bytes that a text takes.
pub open spec fn byte_len(s: Seq<char>) -> int {
    vstd::utf8::encode_utf8(s).len() as int
}

/// The number of bytes that a character takes.
pub open spec fn width(c: char) -> int {
    vstd::utf8::encode_scalar(c as u32).len() as int
}

/// How many characters, of which `k` are known to, lie within the first `n` bytes.
pub open spec fn chars_within_from(s: Seq<char>, n: int, k: int) -> int
    decreases s.len() - k,
{
    if k >= s.len() {
        s.len() as int
    } else if byte_len(s.take(k + 1)) > n {
        k
    } else {
        chars_within_from(s, n, k + 1)
    }
}

/// How many characters lie within the first `n` bytes.
pub open spec fn chars_within(s: Seq<char>, n: int) -> int {
    chars_within_from(s, n, 0)
}

/// A character begins after the first `n` bytes, or the text ends there.
pub open spec fn is_boundary(s: Seq<char>, n: int) -> bool {
    byte_len(s.take(chars_within(s, n))) == n
}

pub proof fn lemma_width(c: char)
    ensures
        1 <= width(c) <= 4,
        width(c) == if (c as u32) < 0x80 {
            1int
        } else if (c as u32) < 0x800 {
            2
        } else if (c as u32) < 0x1_0000 {
            3
        } else {
            4
        },
{
    vstd::utf8::char_is_scalar(c);
}

pub proof fn lemma_encode_push(s: Seq<char>, c: char)
    ensures
        byte_len(s.push(c)) == byte_len(s) + width(c),
    decreases s.len(),
{
    let t = s.push(c);
    if s.len() == 0 {
        assert(t.drop_first() =~= Seq::empty());
        assert(vstd::utf8::encode_utf8(t.drop_first()).len() == 0);
    } else {
        assert(t.drop_first() =~= s.drop_first().push(c));
        lemma_encode_push(s.drop_first(), c);
    }
}

pub proof fn lemma_byte_step(s: Seq<char>, k: int)
    requires
        0 <= k < s.len(),
    ensures
        byte_len(s.take(k + 1)) == byte_len(s.take(k)) + width(s[k]),
        byte_len(s.take(k + 1)) > byte_len(s.take(k)),
{
    assert(s.take(k + 1) =~= s.take(k).push(s[k]));
    lemma_encode_push(s.take(k), s[k]);
    lemma_width(s[k]);
}

pub proof fn lemma_byte_mono(s: Seq<char>, i: int, j: int)
    requires
        0 <= i <= j <= s.len(),
    ensures
        byte_len(s.take(i)) + (j - i) <= byte_len(s.take(j)),
    decreases j - i,
{
    if i < j {
        lemma_byte_mono(s, i, j - 1);
        lemma_byte_step(s, j - 1);
    }
}

proof fn lemma_chars_within_from(s: Seq<char>, j: int, k: int)
    requires
        0 <= j <= k <= s.len(),
    ensures
        chars_within_from(s, byte_len(s.take(k)), j) == k,
    decreases k - j,
{
    if j < k {
        lemma_byte_mono(s, j + 1, k);
        lemma_chars_within_from(s, j + 1, k);
    } else if k < s.len() {
        lemma_byte_step(s, k);
    }
}

/// The bytes of the first `k` characters end at a boundary, and hold just those.
pub proof fn lemma_boundary(s: Seq<char>, k: int)
    requires
        0 <= k <= s.len(),
    ensures
        chars_within(s, byte_len(s.take(k))) == k,
        is_boundary(s, byte_len(s.take(k))),
        0 <= byte_len(s.take(k)) <= byte_len(s),
{
    lemma_chars_within_from(s, 0, k);
    lemma_byte_mono(s, k, s.len() as int);
    assert(s.take(s.len() as int) =~= s);
}

pub proof fn lemma_chars_within(s: Seq<char>, n: int, k: int)
    requires
        0 <= k <= s.len(),
    ensures
        k <= chars_within_from(s, n, k) <= s.len(),
    decreases s.len() - k,
{
    if k < s.len() {
        lemma_chars_within(s, n, k + 1);
    }
}

fn width_of(c: char) -> (r: usize)
    ensures
        r == width(c),
{
    proof {
        lemma_width(c);
    }
    let code = c as u32;
    if code < 0x80 {
        1
    } else if code < 0x800 {
        2
    } else if code < 0x1_0000 {
        3
    } else {
        4
    }
}

/// How many characters lie within the first `n` bytes.
pub fn count_within(s: &[char], n: usize) -> (r: usize)
    ensures
        r == chars_within(s@, n as int),
        r <= s@.len(),
{
    let mut k: usize = 0;
    let mut used: usize = 0;
    assert(s@.take(0) =~= Seq::empty());
    assert(byte_len(s@.take(0)) == 0);
    while k < s.len()
        invariant
            k <= s@.len(),
            used <= n,
            used == byte_len(s@.take(k as int)),
            chars_within(s@, n as int) == chars_within_from(s@, n as int, k as int),
        decreases s@.len() - k,
    {
        let w = width_of(s[k]);
        proof {
            lemma_byte_step(s@, k as int);
        }
        if n - used < w {
            return k;
        }
        used += w;
        k += 1;
    }
    k
}

/// The number of bytes of a text.
pub fn bytes_in(s: &str) -> (r: usize)
    ensures
        r == byte_len(s@),
{
    s.as_bytes().len()
}

// --- laws of texts ---

/// The pieces with `c` between them.
pub open spec fn joined_by(pieces: Seq<Seq<char>>, c: char) -> Seq<char>
    decreases pieces.len(),
{
    if pieces.len() == 0 {
        Seq::empty()
    } else if pieces.len() == 1 {
        pieces[0]
    } else {
        pieces[0].push(c) + joined_by(pieces.skip(1), c)
    }
}

/// A text that is split is not changed: its pieces, put together again, are the text, and none of
/// them holds the separator.
pub proof fn law_split_is_undone(s: Seq<char>, c: char)
    ensures
        split(s, c).len() >= 1,
        joined_by(split(s, c), c) == s,
        forall|i: int| 0 <= i < split(s, c).len() ==> !(#[trigger] split(s, c)[i]).contains(c),
    decreases s.len(),
{
    lemma_first_of(s, c);
    let n = first_of(s, c);
    let all = split(s, c);
    if n >= s.len() {
        assert(all =~= seq![s]);
    } else {
        let rest = split(s.skip(n + 1), c);
        law_split_is_undone(s.skip(n + 1), c);
        assert(all =~= seq![s.take(n)] + rest);
        assert(all.skip(1) =~= rest);
        assert(all[0] == s.take(n));
        assert(s =~= s.take(n).push(c) + s.skip(n + 1));
        assert forall|i: int| 0 <= i < all.len() implies !(#[trigger] all[i]).contains(c) by {
            if i > 0 {
                assert(all[i] == rest[i - 1]);
            }
        }
    }
}

proof fn lemma_trim_start_spaces(s: Seq<char>)
    ensures
        trim_start(s).len() <= s.len(),
        trim_start(s) == s.skip(s.len() - trim_start(s).len()),
        forall|i: int| 0 <= i < s.len() - trim_start(s).len() ==> is_space(#[trigger] s[i]),
        trim_start(s).len() > 0 ==> !is_space(trim_start(s)[0]),
    decreases s.len(),
{
    if s.len() > 0 && is_space(s[0]) {
        let t = s.skip(1);
        lemma_trim_start_spaces(t);
        let k = s.len() - trim_start(s).len();
        assert(trim_start(s) =~= s.skip(k));
        assert forall|i: int| 0 <= i < k implies is_space(#[trigger] s[i]) by {
            if i > 0 {
                assert(t[i - 1] == s[i]);
            }
        }
    } else {
        assert(s.skip(0) =~= s);
    }
}

proof fn lemma_trim_end_spaces(s: Seq<char>)
    ensures
        trim_end(s).len() <= s.len(),
        trim_end(s) == s.take(trim_end(s).len() as int),
        forall|i: int| trim_end(s).len() <= i < s.len() ==> is_space(#[trigger] s[i]),
        trim_end(s).len() > 0 ==> !is_space(trim_end(s).last()),
    decreases s.len(),
{
    if s.len() > 0 && is_space(s.last()) {
        let t = s.drop_last();
        lemma_trim_end_spaces(t);
        assert(trim_end(s) =~= s.take(trim_end(s).len() as int));
        assert forall|i: int| trim_end(s).len() <= i < s.len() implies is_space(#[trigger] s[i]) by {
            if i < t.len() {
                assert(t[i] == s[i]);
            }
        }
    } else {
        assert(s.take(s.len() as int) =~= s);
    }
}

/// Trimming takes the blanks at the two ends and nothing else: what is left begins and ends with no
/// blank, and stood in the text between blanks.
pub proof fn law_trim_takes_the_blanks_at_the_ends(s: Seq<char>)
    ensures
        trim(s).len() > 0 ==> !is_space(trim(s)[0]) && !is_space(trim(s).last()),
        exists|a: int|
            0 <= a <= s.len() - trim(s).len() && #[trigger] s.subrange(a, a + trim(s).len())
                == trim(s) && (forall|i: int| 0 <= i < a ==> is_space(#[trigger] s[i])) && (forall|
                i: int,
            |
                a + trim(s).len() <= i < s.len() ==> is_space(#[trigger] s[i])),
        trim(trim(s)) == trim(s),
{
    let t = trim_start(s);
    let u = trim(s);
    lemma_trim_start_spaces(s);
    lemma_trim_end_spaces(t);
    let a = s.len() - t.len();
    assert(s.subrange(a, a + u.len()) =~= u);
    assert forall|i: int| a + u.len() <= i < s.len() implies is_space(#[trigger] s[i]) by {
        assert(t[i - a] == s[i]);
    }
    if u.len() > 0 {
        assert(u[0] == t[0]);
    }
    assert(trim_start(u) == u);
    lemma_trim_end_spaces(u);
}

proof fn lemma_word_prefix(w: Seq<char>, rest: Seq<char>)
    requires
        forall|i: int| 0 <= i < w.len() ==> !is_space(#[trigger] w[i]),
        rest.len() == 0 || is_space(rest[0]),
    ensures
        word_len(w + rest) == w.len(),
    decreases w.len(),
{
    let s = w + rest;
    if w.len() == 0 {
        assert(s =~= rest);
    } else {
        assert(s[0] == w[0]);
        assert(s.skip(1) =~= w.skip(1) + rest);
        lemma_word_prefix(w.skip(1), rest);
    }
}

/// Words are what stands between blanks: blanks before a word do not count, a word ends at the blank
/// behind it, and the words of what follows come after it.
pub proof fn law_words_stand_between_blanks(blanks: Seq<char>, w: Seq<char>, rest: Seq<char>)
    requires
        forall|i: int| 0 <= i < blanks.len() ==> is_space(#[trigger] blanks[i]),
        w.len() > 0,
        forall|i: int| 0 <= i < w.len() ==> !is_space(#[trigger] w[i]),
        rest.len() == 0 || is_space(rest[0]),
    ensures
        words(blanks + w + rest) == seq![w] + words(rest),
        words(blanks) == Seq::<Seq<char>>::empty(),
{
    let s = blanks + w + rest;
    lemma_skip_blanks(blanks, w + rest);
    assert(s =~= blanks + (w + rest));
    let t = w + rest;
    assert(t[0] == w[0]);
    assert(trim_start(s) == t);
    lemma_word_prefix(w, rest);
    assert(t.take(w.len() as int) =~= w);
    assert(t.skip(w.len() as int) =~= rest);
    lemma_skip_blanks(blanks, Seq::empty());
    assert(blanks + Seq::<char>::empty() =~= blanks);
    assert(words(blanks) =~= Seq::<Seq<char>>::empty());
}

pub proof fn lemma_skip_blanks(blanks: Seq<char>, t: Seq<char>)
    requires
        forall|i: int| 0 <= i < blanks.len() ==> is_space(#[trigger] blanks[i]),
        t.len() == 0 || !is_space(t[0]),
    ensures
        trim_start(blanks + t) == t,
    decreases blanks.len(),
{
    let s = blanks + t;
    if blanks.len() == 0 {
        assert(s =~= t);
    } else {
        assert(s[0] == blanks[0]);
        assert(s.skip(1) =~= blanks.skip(1) + t);
        lemma_skip_blanks(blanks.skip(1), t);
    }
}

/// No word is empty or holds a blank.
pub proof fn law_words_hold_no_blanks(s: Seq<char>, i: int, k: int)
    requires
        0 <= i < words(s).len(),
    ensures
        words(s)[i].len() > 0,
        0 <= k < words(s)[i].len() ==> !is_space(words(s)[i][k]),
    decreases s.len(),
{
    let t = trim_start(s);
    lemma_trim_start_spaces(s);
    lemma_trim_start_len(s);
    lemma_word_len(t);
    let n = word_len(t);
    let rest = words(t.skip(n));
    assert(words(s) =~= seq![t.take(n)] + rest);
    if i == 0 {
        lemma_word_chars(t, k);
    } else {
        law_words_hold_no_blanks(t.skip(n), i - 1, k);
        assert(words(s)[i] == rest[i - 1]);
    }
}

proof fn lemma_word_chars(s: Seq<char>, k: int)
    ensures
        0 <= word_len(s) <= s.len(),
        0 <= k < word_len(s) ==> !is_space(s[k]),
    decreases s.len(),
{
    if s.len() > 0 && !is_space(s[0]) {
        lemma_word_chars(s.skip(1), k - 1);
    }
}

/// A text is found where it stands: in whatever is made of it and something before and behind, and
/// nowhere else.
pub proof fn law_text_is_found_where_it_stands(a: Seq<char>, p: Seq<char>, b: Seq<char>, s: Seq<char>)
    ensures
        has_text(a + p + b, p),
        starts_with(p + b, p),
        has_text(s, p) ==> exists|x: Seq<char>, y: Seq<char>| #[trigger] (x + p + y) == s,
        starts_with(s, p) ==> s == p + s.skip(p.len() as int),
{
    let t = a + p + b;
    assert(t.skip(a.len() as int).take(p.len() as int) =~= p);
    assert(starts_with(t.skip(a.len() as int), p));
    assert((p + b).take(p.len() as int) =~= p);
    if has_text(s, p) {
        let i = choose|i: int| 0 <= i <= s.len() && #[trigger] starts_with(s.skip(i), p);
        let x = s.take(i);
        let y = s.skip(i + p.len());
        assert(s.skip(i).take(p.len() as int) == p);
        assert(x + p + y =~= s) by {
            assert forall|k: int| 0 <= k < s.len() implies (x + p + y)[k] == s[k] by {
                if i <= k < i + p.len() {
                    assert(s.skip(i).take(p.len() as int)[k - i] == s[k]);
                }
            }
        }
    }
    if starts_with(s, p) {
        assert(s =~= s.take(p.len() as int) + s.skip(p.len() as int));
    }
}

/// A number that is written is read back, whatever its sign.
pub proof fn law_number_is_read_back(n: int)
    requires
        i32::MIN <= n <= i32::MAX,
    ensures
        i32_value(signed_decimal(n)) == Some(n),
{
    if n >= 0 {
        lemma_i32_written_and_read(n as nat);
    } else {
        let d = decimal((-n) as nat);
        lemma_decimal((-n) as nat);
        let s = seq!['-'] + d;
        let c = codes(s);
        assert(c.skip(1) =~= codes(d));
        assert(c[0] == 0x2d) by {
            assert(s[0] == '-');
            assert('-' as u32 == 0x2d);
        }
    }
}

/// A digit stands for its value: the ten digits for 0 to 9, the letters of either case for the
/// values from 10 on; in a base, only those below it.
pub proof fn law_digit_stands_for_its_value(v: int, radix: int)
    requires
        0 <= v < 36,
        2 <= radix <= 36,
    ensures
        v < 10 ==> digit(0x30 + v, radix) == if v < radix {
            v
        } else {
            -1
        },
        v >= 10 ==> digit(0x41 + v - 10, radix) == if v < radix {
            v
        } else {
            -1
        },
        v >= 10 ==> digit(0x61 + v - 10, radix) == digit(0x41 + v - 10, radix),
        forall|code: int| #[trigger]
            digit(code, radix) >= 0 ==> 0x30 <= code <= 0x39 || 0x41 <= code <= 0x5a || 0x61 <= code
                <= 0x7a,
{
}

/// A digit behind a number multiplies it by the base and adds its value.
pub proof fn law_digits_count_by_place(s: Seq<u32>, d: u32, radix: int)
    ensures
        digits_value(s.push(d), radix) == digits_value(s, radix) * radix + digit(d as int, radix),
        digits_value(Seq::empty(), radix) == 0,
{
    assert(s.push(d).drop_last() =~= s);
}

/// A number is refused where it is empty, holds something that is no digit, or is too large; one
/// plus sign before it does not count.
pub proof fn law_unsigned_is_read_strictly(s: Seq<u32>, radix: int, max: int)
    requires
        2 <= radix <= 36,
        s.len() > 0 ==> s[0] != 0x2b,
    ensures
        unsigned_value(s, radix, max) is Some <==> s.len() > 0 && digits_value(s, radix) <= max && (
        forall|i: int| 0 <= i < s.len() ==> #[trigger] digit(s[i] as int, radix) >= 0),
        unsigned_value(s, radix, max) matches Some(n) ==> n == digits_value(s, radix),
        unsigned_value(seq![0x2bu32] + s, radix, max) == unsigned_value(s, radix, max),
{
    let t = seq![0x2bu32] + s;
    assert(t.skip(1) =~= s);
}

/// Lines are read as they were written: each up to its line feed, a carriage return before it not
/// counted, and the last one also without a line feed.
pub proof fn law_lines_end_at_line_feeds(line: Seq<char>, rest: Seq<char>)
    requires
        is_line(line),
    ensures
        lines(line.push('\n') + rest) == seq![line] + lines(rest),
        lines(line.push('\r').push('\n') + rest) == seq![line] + lines(rest),
        line.len() > 0 ==> lines(line) == seq![line],
        lines(Seq::empty()).len() == 0,
{
    let a = line.push('\n') + rest;
    lemma_first_of_line(line, rest);
    assert(a.take(line.len() as int) =~= line);
    assert(a.skip(1 + line.len() as int) =~= rest);
    let r = line.push('\r');
    let b = r.push('\n') + rest;
    assert(!r.contains('\n')) by {
        if r.contains('\n') {
            let k = r.index_of('\n');
            if k < line.len() {
                assert(line[k] == '\n');
            }
        }
    }
    lemma_first_of_line(r, rest);
    assert(b.take(r.len() as int) =~= r);
    assert(b.skip(1 + r.len() as int) =~= rest);
    assert(r.drop_last() =~= line);
    if line.len() > 0 {
        lemma_first_of(line, '\n');
    }
}

proof fn lemma_first_of_line(line: Seq<char>, rest: Seq<char>)
    requires
        !line.contains('\n'),
    ensures
        first_of(line.push('\n') + rest, '\n') == line.len(),
    decreases line.len(),
{
    let a = line.push('\n') + rest;
    if line.len() == 0 {
        assert(a[0] == '\n');
    } else {
        assert(a[0] == line[0]);
        assert(line.contains(line[0]));
        assert(a.skip(1) =~= line.skip(1).push('\n') + rest);
        assert(!line.skip(1).contains('\n')) by {
            if line.skip(1).contains('\n') {
                let k = line.skip(1).index_of('\n');
                assert(line[k + 1] == '\n');
            }
        }
        lemma_first_of_line(line.skip(1), rest);
    }
}

/// Below the end of ASCII the blanks are the space and the five characters from the tabulator to the
/// carriage return.
pub proof fn law_ascii_blanks(c: char)
    requires
        c as int <= 0x7f,
    ensures
        is_space(c) <==> c == ' ' || c == '\t' || c == '\n' || c == '\r' || c as int == 0x0b || c as int
            == 0x0c,
{
    assert(' ' as int == 0x20 && '\t' as int == 0x09 && '\n' as int == 0x0a && '\r' as int == 0x0d);
}

/// Blanks behind a text that ends in none are trimmed off it.
pub proof fn lemma_trim_end_blanks(s: Seq<char>, blanks: Seq<char>)
    requires
        s.len() > 0,
        !is_space(s.last()),
        forall|i: int| 0 <= i < blanks.len() ==> is_space(#[trigger] blanks[i]),
    ensures
        trim_end(s + blanks) == s,
    decreases blanks.len(),
{
    let t = s + blanks;
    if blanks.len() == 0 {
        assert(t =~= s);
    } else {
        assert(t.last() == blanks[blanks.len() - 1]);
        assert(t.drop_last() =~= s + blanks.drop_last());
        lemma_trim_end_blanks(s, blanks.drop_last());
    }
}

} // verus!
