//! Character-level text primitives shared by the wire codec, the time parser
//! and the renderers: decimal formatting, `str::parse`-style integer parsing,
//! Unicode whitespace, trimming, searching and splitting.  Everything works on
//! `Vec<char>` in executable code and on `Seq<char>` in specifications.
use vstd::prelude::*;

verus! {

// ---------------------------------------------------------------------------
// Specifications
// ---------------------------------------------------------------------------

pub open spec fn is_digit(c: char) -> bool {
    '0' <= c && c <= '9'
}

pub open spec fn digit_value(c: char) -> nat {
    (c as int - '0' as int) as nat
}

pub open spec fn digit_char(d: nat) -> char {
    let d = d % 10;
    if d == 0 { '0' } else if d == 1 { '1' } else if d == 2 { '2' } else if d == 3 { '3' }
    else if d == 4 { '4' } else if d == 5 { '5' } else if d == 6 { '6' } else if d == 7 { '7' }
    else if d == 8 { '8' } else { '9' }
}

/// Decimal representation of a natural number, without leading zeros.
pub open spec fn dec(n: nat) -> Seq<char>
    decreases n,
{
    if n < 10 {
        seq![digit_char(n)]
    } else {
        dec(n / 10).push(digit_char(n % 10))
    }
}

/// Decimal representation of an integer, with a leading `-` when negative.
pub open spec fn dec_int(i: int) -> Seq<char> {
    if i < 0 {
        seq!['-'] + dec((-i) as nat)
    } else {
        dec(i as nat)
    }
}

pub open spec fn all_digits(s: Seq<char>) -> bool {
    forall|i: int| 0 <= i < s.len() ==> is_digit(#[trigger] s[i])
}

/// The value of a string of decimal digits (leading zeros allowed).
pub open spec fn digits_value(s: Seq<char>) -> nat
    decreases s.len(),
{
    if s.len() == 0 {
        0
    } else {
        digits_value(s.drop_last()) * 10 + digit_value(s.last())
    }
}

/// What `str::parse` gives for an unsigned integer type whose largest value
/// is `max`: an optional `+`, then at least one digit, and a value in range.
pub open spec fn parse_unsigned(s: Seq<char>, max: nat) -> Option<nat> {
    let body = if s.len() > 0 && s[0] == '+' {
        s.drop_first()
    } else {
        s
    };
    if body.len() > 0 && all_digits(body) && digits_value(body) <= max {
        Some(digits_value(body))
    } else {
        None
    }
}

/// What `str::parse::<i64>` gives: an optional sign, then at least one
/// digit, and a value within the range of `i64`.
pub open spec fn parse_i64(s: Seq<char>) -> Option<int> {
    if s.len() > 0 && s[0] == '-' {
        let body = s.drop_first();
        if body.len() > 0 && all_digits(body) && digits_value(body) <= 0x8000_0000_0000_0000 {
            Some(-digits_value(body))
        } else {
            None
        }
    } else {
        match parse_unsigned(s, 0x7fff_ffff_ffff_ffff) {
            Some(v) => Some(v as int),
            None => None,
        }
    }
}

pub open spec fn parse_u32(s: Seq<char>) -> Option<u32> {
    match parse_unsigned(s, u32::MAX as nat) {
        Some(v) => Some(v as u32),
        None => None,
    }
}

pub open spec fn parse_u64(s: Seq<char>) -> Option<u64> {
    match parse_unsigned(s, u64::MAX as nat) {
        Some(v) => Some(v as u64),
        None => None,
    }
}

pub open spec fn parse_usize(s: Seq<char>) -> Option<usize> {
    match parse_unsigned(s, usize::MAX as nat) {
        Some(v) => Some(v as usize),
        None => None,
    }
}

/// Unicode `White_Space`, the property behind `char::is_whitespace`.
pub open spec fn is_ws(c: char) -> bool {
    ||| ('\t' <= c && c <= '\r')
    ||| c == ' '
    ||| c == '\u{85}'
    ||| c == '\u{a0}'
    ||| c == '\u{1680}'
    ||| ('\u{2000}' <= c && c <= '\u{200a}')
    ||| c == '\u{2028}'
    ||| c == '\u{2029}'
    ||| c == '\u{202f}'
    ||| c == '\u{205f}'
    ||| c == '\u{3000}'
}

pub open spec fn trim_start(s: Seq<char>) -> Seq<char>
    decreases s.len(),
{
    if s.len() > 0 && is_ws(s[0]) {
        trim_start(s.drop_first())
    } else {
        s
    }
}

pub open spec fn trim_end(s: Seq<char>) -> Seq<char>
    decreases s.len(),
{
    if s.len() > 0 && is_ws(s.last()) {
        trim_end(s.drop_last())
    } else {
        s
    }
}

/// `str::trim`: whitespace removed from both ends.
pub open spec fn trim(s: Seq<char>) -> Seq<char> {
    trim_end(trim_start(s))
}

/// `pat` occurs in `s` at position `i`.
pub open spec fn match_at(s: Seq<char>, pat: Seq<char>, i: int) -> bool {
    0 <= i && i + pat.len() <= s.len() && s.subrange(i, i + pat.len()) == pat
}

/// The first position at or after `i` where `pat` occurs in `s`.
pub open spec fn find_from(s: Seq<char>, pat: Seq<char>, i: int) -> Option<int>
    decreases s.len() + 1 - i,
{
    if i < 0 || i + pat.len() > s.len() {
        None
    } else if match_at(s, pat, i) {
        Some(i)
    } else {
        find_from(s, pat, i + 1)
    }
}

/// The first position where `pat` occurs in `s`.
pub open spec fn find(s: Seq<char>, pat: Seq<char>) -> Option<int> {
    find_from(s, pat, 0)
}

/// `str::split_once`: the parts before and after the first occurrence of `pat`.
pub open spec fn split_once(s: Seq<char>, pat: Seq<char>) -> Option<(Seq<char>, Seq<char>)> {
    match find(s, pat) {
        Some(i) => Some((s.take(i), s.skip(i + pat.len()))),
        None => None,
    }
}

pub open spec fn has_prefix(s: Seq<char>, p: Seq<char>) -> bool {
    p.len() <= s.len() && s.take(p.len() as int) == p
}

pub open spec fn has_suffix(s: Seq<char>, p: Seq<char>) -> bool {
    p.len() <= s.len() && s.skip(s.len() - p.len()) == p
}

/// `str::strip_prefix`.
pub open spec fn strip_prefix(s: Seq<char>, p: Seq<char>) -> Option<Seq<char>> {
    if has_prefix(s, p) {
        Some(s.skip(p.len() as int))
    } else {
        None
    }
}

/// `s.strip_suffix(p).unwrap_or(s)`: `s` without `p` at its end, if there.
pub open spec fn without_suffix(s: Seq<char>, p: Seq<char>) -> Seq<char> {
    if has_suffix(s, p) {
        s.take(s.len() - p.len())
    } else {
        s
    }
}

/// `str::lines`: pieces ended by `\n`, each with one trailing `\r` removed;
/// a last piece without `\n` is kept as it is, and no empty piece follows a
/// final `\n`.
pub open spec fn lines(s: Seq<char>) -> Seq<Seq<char>>
    decreases s.len(),
{
    if s.len() == 0 {
        seq![]
    } else {
        match find(s, seq!['\n']) {
            Some(i) => if 0 <= i < s.len() {
                seq![without_suffix(s.take(i), seq!['\r'])] + lines(s.skip(i + 1))
            } else {
                seq![s]
            },
            None => seq![s],
        }
    }
}

/// The word list built so far by `words_from`: `cur` is the word in progress.
pub open spec fn flush(cur: Seq<char>) -> Seq<Seq<char>> {
    if cur.len() > 0 {
        seq![cur]
    } else {
        seq![]
    }
}

pub open spec fn words_from(s: Seq<char>, cur: Seq<char>) -> Seq<Seq<char>>
    decreases s.len(),
{
    if s.len() == 0 {
        flush(cur)
    } else if is_ws(s[0]) {
        flush(cur) + words_from(s.drop_first(), seq![])
    } else {
        words_from(s.drop_first(), cur.push(s[0]))
    }
}

/// `str::split_whitespace`: the maximal runs of non-whitespace characters.
pub open spec fn words(s: Seq<char>) -> Seq<Seq<char>> {
    words_from(s, seq![])
}

/// A line break is replaced by a space, so a value stays on its own line.
pub open spec fn unbreak(c: char) -> char {
    if c == '\n' || c == '\r' {
        ' '
    } else {
        c
    }
}

pub open spec fn sanitize(s: Seq<char>) -> Seq<char> {
    s.map_values(|c: char| unbreak(c))
}

pub open spec fn views(v: Seq<Vec<char>>) -> Seq<Seq<char>> {
    v.map_values(|x: Vec<char>| x@)
}

// ---------------------------------------------------------------------------
// Lemmas
// ---------------------------------------------------------------------------

pub proof fn lemma_dec_digits(n: nat)
    ensures
        dec(n).len() >= 1,
        all_digits(dec(n)),
        digits_value(dec(n)) == n,
        dec(n)[0] != '+' && dec(n)[0] != '-',
    decreases n,
{
    assert(digit_value(digit_char(n % 10)) == n % 10);
    assert((n / 10) * 10 + n % 10 == n) by (nonlinear_arith);
    if n < 10 {
        assert(n % 10 == n);
        assert(dec(n).drop_last() =~= Seq::<char>::empty());
        assert(digits_value(dec(n)) == digits_value(Seq::<char>::empty()) * 10 + digit_value(
            digit_char(n),
        ));
    } else {
        lemma_dec_digits(n / 10);
        let s = dec(n);
        assert(s.drop_last() =~= dec(n / 10));
        assert(s.last() == digit_char(n % 10));
        assert(digits_value(s) == digits_value(dec(n / 10)) * 10 + digit_value(digit_char(n % 10)));
        assert forall|i: int| 0 <= i < s.len() implies is_digit(#[trigger] s[i]) by {
            if i < s.len() - 1 {
                assert(s[i] == dec(n / 10)[i]);
            }
        }
    }
}

pub proof fn lemma_parse_dec(n: nat, max: nat)
    requires
        n <= max,
    ensures
        parse_unsigned(dec(n), max) == Some(n),
{
    lemma_dec_digits(n);
}

pub proof fn lemma_digits_value_prefix_mono(s: Seq<char>, i: int, j: int)
    requires
        0 <= i <= j <= s.len(),
        all_digits(s),
    ensures
        digits_value(s.take(i)) <= digits_value(s.take(j)),
    decreases j - i,
{
    if i < j {
        lemma_digits_value_prefix_mono(s, i, j - 1);
        assert(s.take(j).drop_last() =~= s.take(j - 1));
    }
}

pub proof fn lemma_find_from_props(s: Seq<char>, pat: Seq<char>, i: int)
    requires
        i >= 0,
    ensures
        find_from(s, pat, i) matches Some(k) ==> i <= k && match_at(s, pat, k) && forall|j: int|
            i <= j < k ==> !match_at(s, pat, j),
        find_from(s, pat, i) is None ==> forall|j: int| i <= j ==> !match_at(s, pat, j),
    decreases s.len() + 1 - i,
{
    if i + pat.len() > s.len() {
    } else if match_at(s, pat, i) {
    } else {
        lemma_find_from_props(s, pat, i + 1);
    }
}

/// Characterizes `find` by its first match.
pub proof fn lemma_find(s: Seq<char>, pat: Seq<char>)
    ensures
        find(s, pat) matches Some(k) ==> match_at(s, pat, k) && forall|j: int|
            0 <= j < k ==> !match_at(s, pat, j),
        find(s, pat) is None ==> forall|j: int| 0 <= j ==> !match_at(s, pat, j),
{
    lemma_find_from_props(s, pat, 0);
}

/// If `pat` occurs at `k` and nowhere before, `find` gives `k`.
pub proof fn lemma_find_first(s: Seq<char>, pat: Seq<char>, k: int)
    requires
        match_at(s, pat, k),
        forall|j: int| 0 <= j < k ==> !match_at(s, pat, j),
    ensures
        find(s, pat) == Some(k),
{
    lemma_find(s, pat);
    if let Some(k2) = find(s, pat) {
        if k2 < k {
            assert(!match_at(s, pat, k2));
        }
    }
}

/// A pattern whose first character does not occur before `k` cannot match
/// before `k`.
pub proof fn lemma_no_match_before(s: Seq<char>, pat: Seq<char>, k: int)
    requires
        pat.len() > 0,
        0 <= k <= s.len(),
        forall|j: int| 0 <= j < k ==> s[j] != pat[0],
    ensures
        forall|j: int| 0 <= j < k ==> !match_at(s, pat, j),
{
    assert forall|j: int| 0 <= j < k implies !match_at(s, pat, j) by {
        if match_at(s, pat, j) {
            assert(s.subrange(j, j + pat.len())[0] == s[j]);
        }
    }
}

pub proof fn lemma_trim_start_skip(s: Seq<char>, i: int)
    requires
        0 <= i <= s.len(),
        forall|j: int| 0 <= j < i ==> is_ws(#[trigger] s[j]),
    ensures
        trim_start(s) == trim_start(s.skip(i)),
    decreases i,
{
    if i > 0 {
        assert(s.skip(1) =~= s.drop_first());
        lemma_trim_start_skip(s.drop_first(), i - 1);
        assert(s.drop_first().skip(i - 1) =~= s.skip(i));
    } else {
        assert(s.skip(0) =~= s);
    }
}

pub proof fn lemma_trim_end_take(s: Seq<char>, i: int)
    requires
        0 <= i <= s.len(),
        forall|j: int| i <= j < s.len() ==> is_ws(#[trigger] s[j]),
    ensures
        trim_end(s) == trim_end(s.take(i)),
    decreases s.len() - i,
{
    if i < s.len() {
        lemma_trim_end_take(s.drop_last(), i);
        assert(s.drop_last().take(i) =~= s.take(i));
    } else {
        assert(s.take(i) =~= s);
    }
}

pub open spec fn no_char(s: Seq<char>, c: char) -> bool {
    forall|i: int| 0 <= i < s.len() ==> s[i] != c
}

pub open spec fn no_ws(s: Seq<char>) -> bool {
    forall|i: int| 0 <= i < s.len() ==> !is_ws(#[trigger] s[i])
}

pub proof fn lemma_sanitize_no_break(s: Seq<char>)
    ensures
        no_char(sanitize(s), '\n'),
        no_char(sanitize(s), '\r'),
        sanitize(s).len() == s.len(),
{
}

pub proof fn lemma_dec_plain(n: nat)
    ensures
        no_ws(dec(n)),
        no_char(dec(n), '\n'),
        no_char(dec(n), '\r'),
        no_char(dec(n), ' '),
        no_char(dec(n), '='),
        dec(n).len() > 0,
{
    lemma_dec_digits(n);
    assert forall|i: int| 0 <= i < dec(n).len() implies !is_ws(#[trigger] dec(n)[i]) by {
        assert(is_digit(dec(n)[i]));
    }
    assert forall|i: int| 0 <= i < dec(n).len() implies dec(n)[i] != '\n' && dec(n)[i] != '\r'
        && dec(n)[i] != ' ' && dec(n)[i] != '=' by {
        assert(is_digit(dec(n)[i]));
    }
}

pub proof fn lemma_strip_prefix_concat(p: Seq<char>, s: Seq<char>)
    ensures
        strip_prefix(p + s, p) == Some(s),
{
    assert((p + s).take(p.len() as int) =~= p);
    assert((p + s).skip(p.len() as int) =~= s);
}

pub proof fn lemma_without_suffix_push(a: Seq<char>, c: char)
    ensures
        without_suffix(a.push(c), seq![c]) == a,
{
    assert(a.push(c).skip(a.len() as int) =~= seq![c]);
    assert(a.push(c).take(a.len() as int) =~= a);
}

pub proof fn lemma_without_suffix_absent(a: Seq<char>, c: char)
    requires
        a.len() == 0 || a.last() != c,
    ensures
        without_suffix(a, seq![c]) == a,
{
    if a.len() > 0 {
        assert(a.skip(a.len() - 1)[0] == a.last());
    }
}

pub proof fn lemma_trim_end_noop(s: Seq<char>)
    requires
        s.len() == 0 || !is_ws(s.last()),
    ensures
        trim_end(s) == s,
{
}

/// `split_once` at a known first occurrence.
pub proof fn lemma_split_once_at(s: Seq<char>, pat: Seq<char>, k: int)
    requires
        match_at(s, pat, k),
        forall|j: int| 0 <= j < k ==> !match_at(s, pat, j),
    ensures
        split_once(s, pat) == Some((s.take(k), s.skip(k + pat.len()))),
{
    lemma_find_first(s, pat, k);
}

/// A pattern cannot match where its first two characters do not.
pub proof fn lemma_no_match_pair(s: Seq<char>, pat: Seq<char>, k: int)
    requires
        pat.len() >= 2,
        0 <= k,
        forall|j: int| 0 <= j < k && j + 1 < s.len() ==> #[trigger] s[j] != pat[0] || s[j + 1] != pat[1],
    ensures
        forall|j: int| 0 <= j < k ==> !match_at(s, pat, j),
{
    assert forall|j: int| 0 <= j < k implies !match_at(s, pat, j) by {
        if match_at(s, pat, j) {
            assert(s.subrange(j, j + pat.len())[0] == s[j]);
            assert(s.subrange(j, j + pat.len())[1] == s[j + 1]);
        }
    }
}

/// Literal occurrence: `a + pat + b` holds `pat` at `a.len()`.
pub proof fn lemma_match_at_concat(a: Seq<char>, pat: Seq<char>, b: Seq<char>)
    ensures
        match_at(a + pat + b, pat, a.len() as int),
        (a + pat + b).take(a.len() as int) == a,
        (a + pat + b).skip((a.len() + pat.len()) as int) == b,
{
    assert((a + pat + b).subrange(a.len() as int, (a.len() + pat.len()) as int) =~= pat);
    assert((a + pat + b).take(a.len() as int) =~= a);
    assert((a + pat + b).skip((a.len() + pat.len()) as int) =~= b);
}

/// The first line of `a + "\n" + rest` is `a` (less one trailing `\r`).
pub proof fn lemma_lines_cons(a: Seq<char>, rest: Seq<char>)
    requires
        no_char(a, '\n'),
    ensures
        lines(a + seq!['\n'] + rest) == seq![without_suffix(a, seq!['\r'])] + lines(rest),
{
    let s = a + seq!['\n'] + rest;
    lemma_match_at_concat(a, seq!['\n'], rest);
    assert forall|j: int| 0 <= j < a.len() implies s[j] != seq!['\n'][0] by {
        assert(s[j] == a[j]);
    }
    lemma_no_match_before(s, seq!['\n'], a.len() as int);
    lemma_find_first(s, seq!['\n'], a.len() as int);
}

/// Lines of a text that ends with a line break, followed by more text.
pub proof fn lemma_lines_append(x: Seq<char>, y: Seq<char>)
    requires
        x.len() == 0 || x.last() == '\n',
    ensures
        lines(x + y) == lines(x) + lines(y),
    decreases x.len(),
{
    if x.len() == 0 {
        assert(x + y =~= y);
        assert(lines(x) =~= Seq::<Seq<char>>::empty());
        assert(lines(x) + lines(y) =~= lines(y));
    } else {
        let nl = seq!['\n'];
        assert(match_at(x, nl, x.len() - 1)) by {
            assert(x.subrange(x.len() - 1, x.len() as int) =~= nl);
        }
        lemma_find(x, nl);
        let i = find(x, nl)->0;
        let a = x.take(i);
        let rest = x.skip(i + 1);
        assert(x =~= a + nl + rest);
        assert(no_char(a, '\n')) by {
            assert forall|j: int| 0 <= j < a.len() implies a[j] != '\n' by {
                if a[j] == '\n' {
                    assert(match_at(x, nl, j)) by {
                        assert(x.subrange(j, j + 1) =~= nl);
                    }
                }
            }
        }
        lemma_lines_cons(a, rest);
        assert(x + y =~= a + nl + (rest + y));
        lemma_lines_cons(a, rest + y);
        if rest.len() > 0 {
            assert(rest.last() == x.last());
        }
        lemma_lines_append(rest, y);
        assert(seq![without_suffix(a, seq!['\r'])] + (lines(rest) + lines(y)) =~= (seq![
            without_suffix(a, seq!['\r']),
        ] + lines(rest)) + lines(y));
    }
}

pub proof fn lemma_words_from_plain(a: Seq<char>, rest: Seq<char>, cur: Seq<char>)
    requires
        no_ws(a),
    ensures
        words_from(a + rest, cur) == words_from(rest, cur + a),
    decreases a.len(),
{
    if a.len() == 0 {
        assert(a + rest =~= rest);
        assert(cur + a =~= cur);
    } else {
        assert((a + rest)[0] == a[0]);
        assert((a + rest).drop_first() =~= a.drop_first() + rest);
        lemma_words_from_plain(a.drop_first(), rest, cur.push(a[0]));
        assert(cur.push(a[0]) + a.drop_first() =~= cur + a);
    }
}

/// `"a b"` splits into the two words `a` and `b`.
pub proof fn lemma_words_two(a: Seq<char>, b: Seq<char>)
    requires
        no_ws(a),
        no_ws(b),
        a.len() > 0,
        b.len() > 0,
    ensures
        words(a + seq![' '] + b) == seq![a, b],
{
    let s = a + seq![' '] + b;
    assert(s =~= a + (seq![' '] + b));
    lemma_words_from_plain(a, seq![' '] + b, seq![]);
    assert(Seq::<char>::empty() + a =~= a);
    let t = seq![' '] + b;
    assert(t[0] == ' ');
    assert(is_ws(' '));
    assert(t.drop_first() =~= b);
    assert(words_from(t, a) == flush(a) + words_from(b, seq![]));
    assert(b =~= b + Seq::<char>::empty());
    lemma_words_from_plain(b, Seq::<char>::empty(), seq![]);
    assert(Seq::<char>::empty() + b =~= b);
    assert(words_from(Seq::<char>::empty(), b) == flush(b));
    assert(flush(a) + flush(b) =~= seq![a, b]);
}

pub proof fn lemma_trim_start_props(s: Seq<char>)
    ensures
        trim_start(s).len() == 0 || !is_ws(trim_start(s)[0]),
        trim_start(s).len() <= s.len(),
    decreases s.len(),
{
    if s.len() > 0 && is_ws(s[0]) {
        lemma_trim_start_props(s.drop_first());
    }
}

pub proof fn lemma_trim_end_props(s: Seq<char>)
    ensures
        trim_end(s).len() == 0 || !is_ws(trim_end(s).last()),
        trim_end(s).len() <= s.len(),
        trim_end(s) == s.take(trim_end(s).len() as int),
    decreases s.len(),
{
    if s.len() > 0 && is_ws(s.last()) {
        lemma_trim_end_props(s.drop_last());
        let t = trim_end(s.drop_last());
        assert(s.drop_last().take(t.len() as int) =~= s.take(t.len() as int));
    } else {
        assert(s.take(s.len() as int) =~= s);
    }
}

/// Trimming twice is trimming once.
pub proof fn lemma_trim_trim(s: Seq<char>)
    ensures
        trim(trim(s)) == trim(s),
{
    let t = trim_start(s);
    lemma_trim_start_props(s);
    lemma_trim_end_props(t);
    let u = trim_end(t);
    if u.len() > 0 {
        assert(u[0] == t[0]);
    }
    assert(trim_start(u) == u);
    lemma_trim_end_props(u);
    assert(trim_end(u) == u);
}

// ---------------------------------------------------------------------------
// Executable primitives
// ---------------------------------------------------------------------------

/// Copies the characters of `s` into a vector.
pub fn chars_of(s: &str) -> (v: Vec<char>)
    ensures
        v@ == s@,
{
    let mut v: Vec<char> = Vec::new();
    for c in it: s.chars()
        invariant
            v@ == it.seq().take(it.index() as int),
            it.seq() == s@,
    {
        v.push(c);
    }
    v
}

/// Appends one character to a string (`String::push`).
#[verifier::external_body]
fn string_push(s: &mut String, c: char)
    ensures
        final(s)@ == old(s)@.push(c),
{
    s.push(c);
}

/// Builds a string from a vector of characters.
pub fn string_of(v: &Vec<char>) -> (s: String)
    ensures
        s@ == v@,
{
    let mut s = String::new();
    let mut i: usize = 0;
    while i < v.len()
        invariant
            i <= v.len(),
            s@ == v@.take(i as int),
        decreases v.len() - i,
    {
        string_push(&mut s, v[i]);
        i = i + 1;
        assert(s@ =~= v@.take(i as int));
    }
    assert(v@.take(v.len() as int) =~= v@);
    s
}

/// Appends `src` to `dst`.
pub fn extend(dst: &mut Vec<char>, src: &Vec<char>)
    ensures
        final(dst)@ == old(dst)@ + src@,
{
    let mut i: usize = 0;
    while i < src.len()
        invariant
            i <= src.len(),
            dst@ == old(dst)@ + src@.take(i as int),
        decreases src.len() - i,
    {
        dst.push(src[i]);
        i = i + 1;
        assert(dst@ =~= old(dst)@ + src@.take(i as int));
    }
    assert(src@.take(src.len() as int) =~= src@);
}

/// Appends the characters of `src` to `dst`.
pub fn extend_str(dst: &mut Vec<char>, src: &str)
    ensures
        final(dst)@ == old(dst)@ + src@,
{
    let v = chars_of(src);
    extend(dst, &v);
}

/// The characters `v[start..end]`.
pub fn slice(v: &Vec<char>, start: usize, end: usize) -> (r: Vec<char>)
    requires
        start <= end <= v.len(),
    ensures
        r@ == v@.subrange(start as int, end as int),
{
    let mut r: Vec<char> = Vec::new();
    let mut i = start;
    while i < end
        invariant
            start <= i <= end <= v.len(),
            r@ == v@.subrange(start as int, i as int),
        decreases end - i,
    {
        r.push(v[i]);
        i = i + 1;
        assert(r@ =~= v@.subrange(start as int, i as int));
    }
    r
}

/// Whether two character vectors hold the same text.
pub fn same(a: &Vec<char>, b: &Vec<char>) -> (r: bool)
    ensures
        r == (a@ == b@),
{
    if a.len() != b.len() {
        return false;
    }
    let mut i: usize = 0;
    while i < a.len()
        invariant
            a.len() == b.len(),
            i <= a.len(),
            forall|j: int| 0 <= j < i ==> a@[j] == b@[j],
        decreases a.len() - i,
    {
        if a[i] != b[i] {
            return false;
        }
        i = i + 1;
    }
    assert(a@ =~= b@);
    true
}

/// Whether the text equals the string `s`.
pub fn same_str(a: &Vec<char>, s: &str) -> (r: bool)
    ensures
        r == (a@ == s@),
{
    let b = chars_of(s);
    same(a, &b)
}

/// Whether `pat` occurs in `v` at position `i`.
pub fn occurs_at(v: &Vec<char>, pat: &Vec<char>, i: usize) -> (r: bool)
    ensures
        r == match_at(v@, pat@, i as int),
{
    if i > v.len() || pat.len() > v.len() - i {
        return false;
    }
    let mut j: usize = 0;
    while j < pat.len()
        invariant
            i + pat.len() <= v.len(),
            j <= pat.len(),
            forall|k: int| 0 <= k < j ==> v@[i + k] == pat@[k],
        decreases pat.len() - j,
    {
        if v[i + j] != pat[j] {
            assert(v@.subrange(i as int, i + pat.len())[j as int] != pat@[j as int]);
            return false;
        }
        j = j + 1;
    }
    assert(v@.subrange(i as int, i + pat.len()) =~= pat@);
    true
}

/// The first position where `pat` occurs in `v`.
pub fn find_first(v: &Vec<char>, pat: &Vec<char>) -> (r: Option<usize>)
    ensures
        match r {
            Some(i) => find(v@, pat@) == Some(i as int),
            None => find(v@, pat@) is None,
        },
{
    proof {
        lemma_find(v@, pat@);
    }
    if pat.len() > v.len() {
        return None;
    }
    let last = v.len() - pat.len();
    let mut i: usize = 0;
    loop
        invariant
            last == v.len() - pat.len(),
            i <= last,
            forall|j: int| 0 <= j < i ==> !match_at(v@, pat@, j),
        decreases last - i,
    {
        if occurs_at(v, pat, i) {
            proof {
                lemma_find_first(v@, pat@, i as int);
            }
            return Some(i);
        }
        if i == last {
            proof {
                lemma_find(v@, pat@);
                if let Some(k) = find(v@, pat@) {
                    assert(match_at(v@, pat@, k));
                    assert(k <= last);
                    assert(false);
                }
            }
            return None;
        }
        i = i + 1;
    }
}

/// `split_once`: the parts before and after the first occurrence of `pat`.
pub fn split_first(v: &Vec<char>, pat: &Vec<char>) -> (r: Option<(Vec<char>, Vec<char>)>)
    ensures
        match r {
            Some((a, b)) => split_once(v@, pat@) == Some((a@, b@)),
            None => split_once(v@, pat@) is None,
        },
{
    proof {
        lemma_find(v@, pat@);
    }
    match find_first(v, pat) {
        Some(i) => {
            assert(match_at(v@, pat@, i as int));
            assert(i + pat@.len() <= v@.len());
            assert(i + pat.len() <= v.len());
            let a = slice(v, 0, i);
            let b = slice(v, i + pat.len(), v.len());
            assert(a@ =~= v@.take(i as int));
            assert(b@ =~= v@.skip(i + pat.len()));
            Some((a, b))
        },
        None => None,
    }
}

/// `split_once` with a pattern given as a string.
pub fn split_first_str(v: &Vec<char>, pat: &str) -> (r: Option<(Vec<char>, Vec<char>)>)
    ensures
        match r {
            Some((a, b)) => split_once(v@, pat@) == Some((a@, b@)),
            None => split_once(v@, pat@) is None,
        },
{
    let p = chars_of(pat);
    split_first(v, &p)
}

/// `strip_prefix` with a prefix given as a string.
pub fn strip_prefix_str(v: &Vec<char>, p: &str) -> (r: Option<Vec<char>>)
    ensures
        match r {
            Some(a) => strip_prefix(v@, p@) == Some(a@),
            None => strip_prefix(v@, p@) is None,
        },
{
    let pv = chars_of(p);
    if occurs_at(v, &pv, 0) {
        assert(v@.subrange(0, pv@.len() as int) =~= v@.take(pv@.len() as int));
        let r = slice(v, pv.len(), v.len());
        assert(r@ =~= v@.skip(pv@.len() as int));
        Some(r)
    } else {
        assert(v@.subrange(0, pv@.len() as int) =~= v@.take(pv@.len() as int));
        None
    }
}

/// `strip_suffix(c).unwrap_or(v)` for a single character `c`.
pub fn drop_suffix_char(v: Vec<char>, c: char) -> (r: Vec<char>)
    ensures
        r@ == without_suffix(v@, seq![c]),
{
    if v.len() > 0 && v[v.len() - 1] == c {
        assert(v@.skip(v@.len() - 1) =~= seq![c]);
        let r = slice(&v, 0, v.len() - 1);
        r
    } else {
        if v.len() > 0 {
            assert(v@.skip(v@.len() - 1)[0] == v@[v@.len() - 1]);
        }
        v
    }
}

/// `char::is_whitespace`.
pub fn is_whitespace(c: char) -> (r: bool)
    ensures
        r == is_ws(c),
{
    ('\t' <= c && c <= '\r') || c == ' ' || c == '\u{85}' || c == '\u{a0}' || c == '\u{1680}' || (
    '\u{2000}' <= c && c <= '\u{200a}') || c == '\u{2028}' || c == '\u{2029}' || c == '\u{202f}'
        || c == '\u{205f}' || c == '\u{3000}'
}

/// `str::trim_end`.
pub fn trim_end_chars(v: &Vec<char>) -> (r: Vec<char>)
    ensures
        r@ == trim_end(v@),
{
    let mut end = v.len();
    while end > 0 && is_whitespace(v[end - 1])
        invariant
            end <= v.len(),
            forall|j: int| end <= j < v.len() ==> is_ws(#[trigger] v@[j]),
        decreases end,
    {
        end = end - 1;
    }
    proof {
        lemma_trim_end_take(v@, end as int);
        let t = v@.take(end as int);
        if end > 0 {
            assert(t.last() == v@[end - 1]);
        }
        assert(trim_end(t) == t);
    }
    slice(v, 0, end)
}

/// `str::trim`.
pub fn trim_chars(v: &Vec<char>) -> (r: Vec<char>)
    ensures
        r@ == trim(v@),
{
    let mut start: usize = 0;
    while start < v.len() && is_whitespace(v[start])
        invariant
            start <= v.len(),
            forall|j: int| 0 <= j < start ==> is_ws(#[trigger] v@[j]),
        decreases v.len() - start,
    {
        start = start + 1;
    }
    proof {
        lemma_trim_start_skip(v@, start as int);
        let t = v@.skip(start as int);
        if start < v.len() {
            assert(t[0] == v@[start as int]);
        }
        assert(trim_start(t) == t);
    }
    let rest = slice(v, start, v.len());
    assert(rest@ =~= v@.skip(start as int));
    trim_end_chars(&rest)
}

/// `str::split_whitespace`.
pub fn split_words(v: &Vec<char>) -> (r: Vec<Vec<char>>)
    ensures
        views(r@) == words(v@),
{
    let mut out: Vec<Vec<char>> = Vec::new();
    let mut cur: Vec<char> = Vec::new();
    let mut i: usize = 0;
    assert(views(out@) =~= Seq::<Seq<char>>::empty());
    assert(v@.skip(0) =~= v@);
    assert(views(out@) + words_from(v@.skip(0), cur@) =~= words(v@));
    while i < v.len()
        invariant
            i <= v.len(),
            views(out@) + words_from(v@.skip(i as int), cur@) == words(v@),
        decreases v.len() - i,
    {
        let ghost rest = v@.skip(i as int);
        let ghost before = views(out@);
        let ghost old_cur = cur@;
        assert(rest.drop_first() =~= v@.skip(i + 1));
        assert(rest[0] == v@[i as int]);
        if is_whitespace(v[i]) {
            assert(words_from(rest, old_cur) == flush(old_cur) + words_from(
                v@.skip(i + 1),
                Seq::<char>::empty(),
            ));
            if cur.len() > 0 {
                out.push(cur);
                assert(views(out@) =~= before + seq![old_cur]);
                cur = Vec::new();
            } else {
                assert(flush(old_cur) =~= Seq::<Seq<char>>::empty());
                assert(views(out@) =~= before + flush(old_cur));
            }
            assert(views(out@) =~= before + flush(old_cur));
            assert(cur@ =~= Seq::<char>::empty());
            assert(before + (flush(old_cur) + words_from(v@.skip(i + 1), cur@)) =~= (before
                + flush(old_cur)) + words_from(v@.skip(i + 1), cur@));
        } else {
            cur.push(v[i]);
            assert(cur@ == old_cur.push(rest[0]));
        }
        i = i + 1;
    }
    assert(v@.skip(i as int) =~= Seq::<char>::empty());
    let ghost before = views(out@);
    if cur.len() > 0 {
        let ghost c = cur@;
        out.push(cur);
        assert(views(out@) =~= before + seq![c]);
    } else {
        assert(views(out@) + flush(cur@) =~= views(out@));
    }
    out
}

/// `str::lines`.
pub fn split_lines(v: &Vec<char>) -> (r: Vec<Vec<char>>)
    ensures
        views(r@) == lines(v@),
{
    let mut out: Vec<Vec<char>> = Vec::new();
    let mut start: usize = 0;
    let nl: Vec<char> = vec!['\n'];
    assert(views(out@) =~= Seq::<Seq<char>>::empty());
    assert(v@.skip(0) =~= v@);
    assert(views(out@) + lines(v@.skip(0)) =~= lines(v@));
    while start < v.len()
        invariant
            start <= v.len(),
            nl@ == seq!['\n'],
            views(out@) + lines(v@.skip(start as int)) == lines(v@),
        decreases v.len() - start,
    {
        let rest = slice(v, start, v.len());
        assert(rest@ =~= v@.skip(start as int));
        match find_first(&rest, &nl) {
            Some(k) => {
                proof {
                    lemma_find(rest@, nl@);
                }
                let piece = slice(&rest, 0, k);
                assert(piece@ =~= rest@.take(k as int));
                let piece = drop_suffix_char(piece, '\r');
                let ghost before = out@;
                out.push(piece);
                assert(views(out@) =~= views(before) + seq![piece@]);
                assert(rest@.skip(k + 1) =~= v@.skip(start + k + 1));
                assert(views(out@) + lines(v@.skip(start + k + 1)) =~= views(before) + lines(
                    rest@,
                ));
                start = start + k + 1;
            },
            None => {
                let ghost before = out@;
                out.push(rest);
                assert(views(out@) =~= views(before) + seq![rest@]);
                assert(v@.skip(v.len() as int) =~= Seq::<char>::empty());
                assert(views(out@) + lines(v@.skip(v.len() as int)) =~= views(out@));
                start = v.len();
            },
        }
    }
    assert(v@.skip(start as int) =~= Seq::<char>::empty());
    assert(views(out@) + Seq::<Seq<char>>::empty() =~= views(out@));
    out
}

/// Appends the decimal representation of `n`.
pub fn push_dec(out: &mut Vec<char>, n: u64)
    ensures
        final(out)@ == old(out)@ + dec(n as nat),
    decreases n,
{
    if n >= 10 {
        push_dec(out, n / 10);
    }
    let d = n % 10;
    let ch = if d == 0 { '0' } else if d == 1 { '1' } else if d == 2 { '2' } else if d == 3 { '3' }
        else if d == 4 { '4' } else if d == 5 { '5' } else if d == 6 { '6' } else if d == 7 { '7' }
        else if d == 8 { '8' } else { '9' };
    out.push(ch);
    assert(ch == digit_char(n as nat));
    if n >= 10 {
        assert(out@ =~= old(out)@ + dec(n as nat));
    } else {
        assert(out@ =~= old(out)@ + dec(n as nat));
    }
}

/// Appends the decimal representation of a signed integer.
pub fn push_dec_i64(out: &mut Vec<char>, i: i64)
    ensures
        final(out)@ == old(out)@ + dec_int(i as int),
{
    if i < 0 {
        out.push('-');
        let m: u64 = if i == i64::MIN {
            0x8000_0000_0000_0000u64
        } else {
            (-i) as u64
        };
        push_dec(out, m);
        assert(out@ =~= old(out)@ + (seq!['-'] + dec((-i) as nat)));
    } else {
        push_dec(out, i as u64);
    }
}

/// The value of a non-empty digit string, if it is at most `max`.
fn digits_upto(v: &Vec<char>, start: usize, max: u64) -> (r: Option<u64>)
    requires
        start <= v.len(),
    ensures
        ({
            let body = v@.skip(start as int);
            match r {
                Some(n) => body.len() > 0 && all_digits(body) && digits_value(body) <= max
                    && n == digits_value(body),
                None => !(body.len() > 0 && all_digits(body) && digits_value(body) <= max),
            }
        }),
{
    let ghost body = v@.skip(start as int);
    if start == v.len() {
        return None;
    }
    let mut acc: u64 = 0;
    let mut i = start;
    while i < v.len()
        invariant
            start <= i <= v.len(),
            body == v@.skip(start as int),
            all_digits(body.take(i - start)),
            acc == digits_value(body.take(i - start)),
            acc <= max,
        decreases v.len() - i,
    {
        let c = v[i];
        assert(body[i - start] == c);
        if !('0' <= c && c <= '9') {
            assert(!is_digit(body[i - start]));
            return None;
        }
        let d = (c as u32 - '0' as u32) as u64;
        let ghost next = body.take(i - start + 1);
        assert(next.drop_last() =~= body.take(i - start));
        assert(next.last() == c);
        proof {
            assert forall|k: int| 0 <= k < next.len() implies is_digit(#[trigger] next[k]) by {
                if k < next.len() - 1 {
                    assert(next[k] == body.take(i - start)[k]);
                }
            }
        }
        if acc > max / 10 || (acc == max / 10 && d > max % 10) {
            proof {
                assert(acc * 10 + d > max) by (nonlinear_arith)
                    requires
                        acc > max / 10 || (acc == max / 10 && d > max % 10),
                        d <= 9,
                ;
                assert(digits_value(next) == acc * 10 + d);
                // every longer prefix is at least as large
                if all_digits(body) {
                    lemma_digits_value_prefix_mono(body, i - start + 1, body.len() as int);
                    assert(body.take(body.len() as int) =~= body);
                }
            }
            return None;
        }
        proof {
            assert(acc * 10 + d <= max) by (nonlinear_arith)
                requires
                    !(acc > max / 10 || (acc == max / 10 && d > max % 10)),
                    d <= 9,
            ;
        }
        acc = acc * 10 + d;
        i = i + 1;
    }
    assert(body.take(i - start) =~= body);
    Some(acc)
}

/// `str::parse` for an unsigned integer type whose largest value is `max`.
pub fn parse_unsigned_chars(v: &Vec<char>, max: u64) -> (r: Option<u64>)
    ensures
        match r {
            Some(n) => parse_unsigned(v@, max as nat) == Some(n as nat),
            None => parse_unsigned(v@, max as nat) is None,
        },
{
    if v.len() > 0 && v[0] == '+' {
        assert(v@.skip(1) =~= v@.drop_first());
        digits_upto(v, 1, max)
    } else {
        assert(v@.skip(0) =~= v@);
        digits_upto(v, 0, max)
    }
}

/// `str::parse::<i64>`.
pub fn parse_i64_chars(v: &Vec<char>) -> (r: Option<i64>)
    ensures
        match r {
            Some(n) => parse_i64(v@) == Some(n as int),
            None => parse_i64(v@) is None,
        },
{
    if v.len() > 0 && v[0] == '-' {
        assert(v@.skip(1) =~= v@.drop_first());
        match digits_upto(v, 1, 0x8000_0000_0000_0000u64) {
            Some(m) => {
                if m == 0x8000_0000_0000_0000u64 {
                    Some(i64::MIN)
                } else {
                    Some(-(m as i64))
                }
            },
            None => None,
        }
    } else {
        match parse_unsigned_chars(v, 0x7fff_ffff_ffff_ffffu64) {
            Some(m) => Some(m as i64),
            None => None,
        }
    }
}

/// Replaces every line break by a space.
pub fn sanitize_chars(v: &Vec<char>) -> (r: Vec<char>)
    ensures
        r@ == sanitize(v@),
{
    let mut r: Vec<char> = Vec::new();
    let mut i: usize = 0;
    while i < v.len()
        invariant
            i <= v.len(),
            r@ == sanitize(v@.take(i as int)),
        decreases v.len() - i,
    {
        let c = v[i];
        if c == '\n' || c == '\r' {
            r.push(' ');
        } else {
            r.push(c);
        }
        i = i + 1;
        assert(r@ =~= sanitize(v@.take(i as int)));
    }
    assert(v@.take(v.len() as int) =~= v@);
    r
}

} // verus!
