//! Text as sequences of characters: searching, splitting, trimming, and decimal numbers.
//!
//! Every function here is stated over `Seq<char>`, the view of `str` and `String`, so
//! that the modules that build keys, commands and cookies can say exactly which text
//! they produce.

use vstd::prelude::*;

verus! {

// ---------------------------------------------------------------------------
// Views
// ---------------------------------------------------------------------------

/// The texts held by a sequence of strings.
pub open spec fn texts(v: Seq<String>) -> Seq<Seq<char>> {
    Seq::new(v.len(), |i: int| v[i]@)
}

/// The text held by an optional string.
pub open spec fn opt_text(v: Option<String>) -> Option<Seq<char>> {
    match v {
        Some(s) => Some(s@),
        None => None,
    }
}

/// Appending a string appends its text.
pub proof fn lemma_texts_push(v: Seq<String>, s: String)
    ensures
        texts(v.push(s)) == texts(v).push(s@),
{
    assert(texts(v.push(s)) =~= texts(v).push(s@));
}

/// The characters of a text.
pub fn chars_of(s: &str) -> (r: Vec<char>)
    ensures
        r@ == s@,
{
    let mut out: Vec<char> = Vec::new();
    for c in it: s.chars()
        invariant
            out@ == s@.take(it.index() as int),
            it.seq() == s@,
    {
        out.push(c);
        assert(s@.take(it.index() + 1) =~= s@.take(it.index() as int).push(c));
    }
    assert(s@.take(s@.len() as int) =~= s@);
    out
}

/// Whether two texts are the same.
pub fn text_eq(a: &str, b: &str) -> (r: bool)
    ensures
        r == (a@ == b@),
{
    let left: String = a.to_owned();
    let right: String = b.to_owned();
    left == right
}

/// The text followed by another.
pub fn join2(a: &str, b: &str) -> (r: String)
    ensures
        r@ == a@ + b@,
{
    let mut out: String = a.to_owned();
    out.append(b);
    out
}

/// Three texts one after the other.
pub fn join3(a: &str, b: &str, c: &str) -> (r: String)
    ensures
        r@ == a@ + b@ + c@,
{
    let mut out: String = a.to_owned();
    out.append(b);
    out.append(c);
    out
}

// ---------------------------------------------------------------------------
// Searching
// ---------------------------------------------------------------------------

/// `pattern` stands in `s` at position `at`.
pub open spec fn occurs_at(s: Seq<char>, pattern: Seq<char>, at: int) -> bool {
    &&& 0 <= at
    &&& at + pattern.len() <= s.len()
    &&& s.subrange(at, at + pattern.len()) == pattern
}

/// `pattern` stands somewhere in `s`.
pub open spec fn contains_text(s: Seq<char>, pattern: Seq<char>) -> bool {
    exists|at: int| occurs_at(s, pattern, at)
}

/// `s` begins with `pattern`.
pub open spec fn begins_with(s: Seq<char>, pattern: Seq<char>) -> bool {
    occurs_at(s, pattern, 0)
}

/// `s` ends with `pattern`.
pub open spec fn finishes_with(s: Seq<char>, pattern: Seq<char>) -> bool {
    occurs_at(s, pattern, s.len() - pattern.len())
}

/// The first position at which `pattern` stands in `s`.
pub open spec fn find_text(s: Seq<char>, pattern: Seq<char>) -> Option<int>
    decreases s.len(),
{
    if begins_with(s, pattern) {
        Some(0)
    } else if s.len() == 0 {
        None
    } else {
        match find_text(s.skip(1), pattern) {
            Some(at) => Some(at + 1),
            None => None,
        }
    }
}

/// What `find_text` finds is the first occurrence, and it finds one wherever there is one.
pub proof fn lemma_find_text(s: Seq<char>, pattern: Seq<char>)
    ensures
        match find_text(s, pattern) {
            Some(at) => occurs_at(s, pattern, at) && forall|j: int|
                0 <= j < at ==> !occurs_at(s, pattern, j),
            None => !contains_text(s, pattern),
        },
    decreases s.len(),
{
    if begins_with(s, pattern) {
    } else if s.len() == 0 {
        assert forall|j: int| !occurs_at(s, pattern, j) by {
            if occurs_at(s, pattern, j) {
                assert(j == 0);
            }
        }
    } else {
        let t = s.skip(1);
        lemma_find_text(t, pattern);
        assert forall|j: int| j >= 1 implies occurs_at(s, pattern, j) == occurs_at(
            t,
            pattern,
            j - 1,
        ) by {
            if j + pattern.len() <= s.len() {
                assert(s.subrange(j, j + pattern.len()) =~= t.subrange(
                    j - 1,
                    j - 1 + pattern.len(),
                ));
            }
        }
        assert(!occurs_at(s, pattern, 0));
        match find_text(t, pattern) {
            Some(at) => {
                assert(occurs_at(s, pattern, at + 1));
            },
            None => {
                assert forall|j: int| !occurs_at(s, pattern, j) by {
                    if j >= 1 {
                        assert(!occurs_at(t, pattern, j - 1));
                    }
                }
            },
        }
    }
}

/// Whether `pattern` stands in `s` at position `at`.
pub fn matches_at(s: &Vec<char>, pattern: &Vec<char>, at: usize) -> (r: bool)
    ensures
        r == occurs_at(s@, pattern@, at as int),
{
    if at > s.len() || s.len() - at < pattern.len() {
        return false;
    }
    let n: usize = s.len();
    let mut k: usize = 0;
    while k < pattern.len()
        invariant
            n == s@.len(),
            k <= pattern@.len(),
            at + pattern@.len() <= n,
            forall|j: int| 0 <= j < k ==> s@[at + j] == pattern@[j],
        decreases pattern@.len() - k,
    {
        if s[at + k] != pattern[k] {
            assert(s@.subrange(at as int, at + pattern@.len())[k as int] != pattern@[k as int]);
            return false;
        }
        k = k + 1;
    }
    assert(s@.subrange(at as int, at + pattern@.len()) =~= pattern@);
    true
}

/// The first position at which `pattern` stands in `s`.
pub fn find(s: &Vec<char>, pattern: &Vec<char>) -> (r: Option<usize>)
    ensures
        match r {
            Some(at) => find_text(s@, pattern@) == Some(at as int) && at + pattern@.len()
                <= s@.len(),
            None => find_text(s@, pattern@) is None,
        },
{
    proof {
        lemma_find_text(s@, pattern@);
    }
    let mut at: usize = 0;
    while at < s.len()
        invariant
            at <= s@.len(),
            forall|j: int| 0 <= j < at ==> !occurs_at(s@, pattern@, j),
            match find_text(s@, pattern@) {
                Some(k) => occurs_at(s@, pattern@, k) && forall|j: int|
                    0 <= j < k ==> !occurs_at(s@, pattern@, j),
                None => !contains_text(s@, pattern@),
            },
        decreases s@.len() - at,
    {
        if matches_at(s, pattern, at) {
            return Some(at);
        }
        at = at + 1;
    }
    if matches_at(s, pattern, at) {
        Some(at)
    } else {
        assert forall|j: int| !occurs_at(s@, pattern@, j) by {
            if occurs_at(s@, pattern@, j) {
                assert(j <= at);
            }
        }
        None
    }
}

/// Whether `pattern` stands somewhere in `s`.
pub fn contains(s: &Vec<char>, pattern: &str) -> (r: bool)
    ensures
        r == contains_text(s@, pattern@),
{
    let p: Vec<char> = chars_of(pattern);
    proof {
        lemma_find_text(s@, p@);
    }
    match find(s, &p) {
        Some(_) => true,
        None => false,
    }
}

/// Whether `s` begins with `pattern`.
pub fn starts_with(s: &str, pattern: &str) -> (r: bool)
    ensures
        r == begins_with(s@, pattern@),
{
    let c: Vec<char> = chars_of(s);
    let p: Vec<char> = chars_of(pattern);
    matches_at(&c, &p, 0)
}

/// Whether `s` ends with `pattern`.
pub fn ends_with(s: &Vec<char>, pattern: &str) -> (r: bool)
    ensures
        r == finishes_with(s@, pattern@),
{
    let p: Vec<char> = chars_of(pattern);
    if p.len() > s.len() {
        return false;
    }
    matches_at(s, &p, s.len() - p.len())
}

// ---------------------------------------------------------------------------
// Splitting
// ---------------------------------------------------------------------------

/// The position of the first `c` in `s`, or the length of `s` where there is none.
pub open spec fn index_of_char(s: Seq<char>, c: char) -> int
    decreases s.len(),
{
    if s.len() == 0 || s[0] == c {
        0
    } else {
        1 + index_of_char(s.skip(1), c)
    }
}

/// What `index_of_char` finds is the first occurrence.
pub proof fn lemma_index_of_char(s: Seq<char>, c: char)
    ensures
        0 <= index_of_char(s, c) <= s.len(),
        forall|j: int| 0 <= j < index_of_char(s, c) ==> s[j] != c,
        index_of_char(s, c) < s.len() ==> s[index_of_char(s, c)] == c,
    decreases s.len(),
{
    if s.len() == 0 || s[0] == c {
    } else {
        let t = s.skip(1);
        lemma_index_of_char(t, c);
        assert forall|j: int| 0 <= j < index_of_char(s, c) implies s[j] != c by {
            if j > 0 {
                assert(t[j - 1] == s[j]);
            }
        }
        if index_of_char(s, c) < s.len() {
            assert(t[index_of_char(t, c)] == s[index_of_char(s, c)]);
        }
    }
}

/// A position before which no `c` stands, and at which one does or the text ends, is the
/// one that `index_of_char` finds.
pub proof fn lemma_index_of_char_unique(s: Seq<char>, c: char, at: int)
    requires
        0 <= at <= s.len(),
        forall|j: int| 0 <= j < at ==> s[j] != c,
        at < s.len() ==> s[at] == c,
    ensures
        index_of_char(s, c) == at,
{
    lemma_index_of_char(s, c);
    let found = index_of_char(s, c);
    if found < at {
        assert(s[found] != c);
    } else if at < found {
        assert(s[at] != c);
    }
}

/// The pieces of `s` between the separators.
pub open spec fn split_text(s: Seq<char>, sep: char) -> Seq<Seq<char>>
    decreases s.len(),
    via split_text_decreases
{
    let at = index_of_char(s, sep);
    if 0 <= at < s.len() {
        seq![s.take(at)] + split_text(s.skip(at + 1), sep)
    } else {
        seq![s]
    }
}

#[via_fn]
proof fn split_text_decreases(s: Seq<char>, sep: char) {
    lemma_index_of_char(s, sep);
}

/// The two sides of the first separator, where there is one.
pub open spec fn split_once_text(s: Seq<char>, sep: char) -> Option<(Seq<char>, Seq<char>)> {
    let at = index_of_char(s, sep);
    if at < s.len() {
        Some((s.take(at), s.skip(at + 1)))
    } else {
        None
    }
}

/// The position of the first `c` at or after `from`, or the length of `s`.
fn position_from(s: &Vec<char>, c: char, from: usize) -> (r: usize)
    requires
        from <= s@.len(),
    ensures
        from <= r <= s@.len(),
        r - from == index_of_char(s@.skip(from as int), c),
{
    let mut at: usize = from;
    while at < s.len()
        invariant_except_break
            forall|j: int| from <= j < at ==> s@[j] != c,
        invariant
            from <= at <= s@.len(),
        ensures
            forall|j: int| from <= j < at ==> s@[j] != c,
            at < s@.len() ==> s@[at as int] == c,
        decreases s@.len() - at,
    {
        if s[at] == c {
            break;
        }
        at = at + 1;
    }
    proof {
        let t = s@.skip(from as int);
        assert forall|j: int| 0 <= j < at - from implies t[j] != c by {
            assert(t[j] == s@[from + j]);
        }
        lemma_index_of_char_unique(t, c, at - from);
    }
    at
}

/// The pieces of `s` between the separators; there is always at least one.
pub fn split(s: &str, sep: char) -> (r: Vec<String>)
    ensures
        texts(r@) == split_text(s@, sep),
{
    let c: Vec<char> = chars_of(s);
    let mut out: Vec<String> = Vec::new();
    let mut from: usize = 0;
    assert(s@.skip(0) =~= s@);
    assert(texts(out@) =~= Seq::<Seq<char>>::empty());
    assert(Seq::<Seq<char>>::empty() + split_text(s@, sep) =~= split_text(s@, sep));
    loop
        invariant_except_break
            texts(out@) + split_text(s@.skip(from as int), sep) == split_text(s@, sep),
        invariant
            c@ == s@,
            from <= s@.len(),
        ensures
            texts(out@) == split_text(s@, sep),
        decreases s@.len() - from,
    {
        let at: usize = position_from(&c, sep, from);
        let ghost rest = s@.skip(from as int);
        let ghost before = out@;
        let piece: &str = s.substring_char(from, at);
        out.push(piece.to_owned());
        proof {
            lemma_texts_push(before, out@.last());
            assert(piece@ =~= rest.take(at - from));
            if at < s@.len() {
                assert(rest.skip(at - from + 1) =~= s@.skip(at + 1));
                assert(split_text(rest, sep) == seq![rest.take(at - from)] + split_text(
                    s@.skip(at + 1),
                    sep,
                ));
                assert(texts(before).push(piece@) + split_text(s@.skip(at + 1), sep) =~= texts(
                    before,
                ) + split_text(rest, sep));
            } else {
                assert(rest.take(at - from) =~= rest);
                assert(texts(before).push(piece@) =~= texts(before) + split_text(rest, sep));
            }
        }
        if at == c.len() {
            break;
        }
        from = at + 1;
    }
    out
}

/// The two sides of the first separator, where there is one.
pub fn split_once(s: &str, sep: char) -> (r: Option<(String, String)>)
    ensures
        match r {
            Some((left, right)) => split_once_text(s@, sep) == Some((left@, right@)),
            None => split_once_text(s@, sep) is None,
        },
{
    let c: Vec<char> = chars_of(s);
    assert(s@.skip(0) =~= s@);
    let at: usize = position_from(&c, sep, 0);
    if at == c.len() {
        return None;
    }
    let left: &str = s.substring_char(0, at);
    let right: &str = s.substring_char(at + 1, c.len());
    assert(left@ =~= s@.take(at as int));
    assert(right@ =~= s@.skip(at + 1));
    Some((left.to_owned(), right.to_owned()))
}

/// What follows `prefix`, where `s` begins with it.
pub open spec fn strip_prefix_text(s: Seq<char>, prefix: Seq<char>) -> Option<Seq<char>> {
    if begins_with(s, prefix) {
        Some(s.skip(prefix.len() as int))
    } else {
        None
    }
}

/// What follows `prefix`, where `s` begins with it.
pub fn strip_prefix(s: &str, prefix: &str) -> (r: Option<String>)
    ensures
        opt_text(r) == strip_prefix_text(s@, prefix@),
{
    let c: Vec<char> = chars_of(s);
    let p: Vec<char> = chars_of(prefix);
    if matches_at(&c, &p, 0) {
        let rest: &str = s.substring_char(p.len(), c.len());
        assert(rest@ =~= s@.skip(prefix@.len() as int));
        Some(rest.to_owned())
    } else {
        None
    }
}

/// A piece without separators, then a separator: the piece is the first one.
pub proof fn lemma_split_first(piece: Seq<char>, sep: char, rest: Seq<char>)
    requires
        !piece.contains(sep),
    ensures
        split_text(piece.push(sep) + rest, sep) == seq![piece] + split_text(rest, sep),
        split_once_text(piece.push(sep) + rest, sep) == Some((piece, rest)),
{
    let s = piece.push(sep) + rest;
    let at = piece.len() as int;
    assert forall|j: int| 0 <= j < at implies s[j] != sep by {
        assert(s[j] == piece[j]);
    }
    assert(s[at] == sep);
    lemma_index_of_char_unique(s, sep, at);
    assert(s.take(at) =~= piece);
    assert(s.skip(at + 1) =~= rest);
}

/// A text without separators is its own only piece.
pub proof fn lemma_split_whole(piece: Seq<char>, sep: char)
    requires
        !piece.contains(sep),
    ensures
        split_text(piece, sep) == seq![piece],
        split_once_text(piece, sep) is None,
{
    lemma_index_of_char(piece, sep);
    let at = index_of_char(piece, sep);
    if at < piece.len() {
        assert(piece.contains(piece[at]));
    }
}

// ---------------------------------------------------------------------------
// Trimming
// ---------------------------------------------------------------------------

/// The characters with the Unicode property White_Space.
pub open spec fn is_white_space(c: char) -> bool {
    ||| '\u{9}' <= c <= '\u{d}'
    ||| c == ' '
    ||| c == '\u{85}'
    ||| c == '\u{a0}'
    ||| c == '\u{1680}'
    ||| '\u{2000}' <= c <= '\u{200a}'
    ||| c == '\u{2028}'
    ||| c == '\u{2029}'
    ||| c == '\u{202f}'
    ||| c == '\u{205f}'
    ||| c == '\u{3000}'
}

/// Whether a character has the Unicode property White_Space.
fn white_space(c: char) -> (r: bool)
    ensures
        r == is_white_space(c),
{
    ('\u{9}' <= c && c <= '\u{d}') || c == ' ' || c == '\u{85}' || c == '\u{a0}' || c == '\u{1680}'
        || ('\u{2000}' <= c && c <= '\u{200a}') || c == '\u{2028}' || c == '\u{2029}' || c
        == '\u{202f}' || c == '\u{205f}' || c == '\u{3000}'
}

/// `s` without the white space at its start.
pub open spec fn trim_start_text(s: Seq<char>) -> Seq<char>
    decreases s.len(),
{
    if s.len() > 0 && is_white_space(s[0]) {
        trim_start_text(s.skip(1))
    } else {
        s
    }
}

/// `s` without the white space at its end.
pub open spec fn trim_end_text(s: Seq<char>) -> Seq<char>
    decreases s.len(),
{
    if s.len() > 0 && is_white_space(s.last()) {
        trim_end_text(s.drop_last())
    } else {
        s
    }
}

/// `s` without the white space at either end.
pub open spec fn trim_text(s: Seq<char>) -> Seq<char> {
    trim_end_text(trim_start_text(s))
}

/// `s` without the white space at either end.
pub fn trim(s: &str) -> (r: String)
    ensures
        r@ == trim_text(s@),
{
    let c: Vec<char> = chars_of(s);
    let mut from: usize = 0;
    assert(s@.skip(0) =~= s@);
    while from < c.len() && white_space(c[from])
        invariant
            c@ == s@,
            from <= s@.len(),
            trim_start_text(s@.skip(from as int)) == trim_start_text(s@),
        decreases s@.len() - from,
    {
        assert(s@.skip(from as int).skip(1) =~= s@.skip(from + 1));
        from = from + 1;
    }
    let ghost body = s@.skip(from as int);
    assert(trim_start_text(s@) == body);
    let mut to: usize = c.len();
    assert(s@.subrange(from as int, to as int) =~= body);
    while to > from && white_space(c[to - 1])
        invariant
            c@ == s@,
            from <= to <= s@.len(),
            trim_end_text(s@.subrange(from as int, to as int)) == trim_end_text(body),
        decreases to,
    {
        assert(s@.subrange(from as int, to as int).drop_last() =~= s@.subrange(
            from as int,
            to - 1,
        ));
        to = to - 1;
    }
    let out: &str = s.substring_char(from, to);
    out.to_owned()
}

// ---------------------------------------------------------------------------
// Decimal numbers
// ---------------------------------------------------------------------------

/// The character of a decimal digit.
pub open spec fn digit_char(d: int) -> char {
    if d == 0 {
        '0'
    } else if d == 1 {
        '1'
    } else if d == 2 {
        '2'
    } else if d == 3 {
        '3'
    } else if d == 4 {
        '4'
    } else if d == 5 {
        '5'
    } else if d == 6 {
        '6'
    } else if d == 7 {
        '7'
    } else if d == 8 {
        '8'
    } else {
        '9'
    }
}

/// The decimal digits of a natural number, without leading zeros.
pub open spec fn digits(n: nat) -> Seq<char>
    decreases n,
{
    if n < 10 {
        seq![digit_char(n as int)]
    } else {
        digits(n / 10).push(digit_char((n % 10) as int))
    }
}

/// The decimal form of an integer: a minus sign where it is negative, then its digits.
pub open spec fn decimal(n: int) -> Seq<char> {
    if n < 0 {
        seq!['-'] + digits((-n) as nat)
    } else {
        digits(n as nat)
    }
}

/// An ASCII decimal digit.
pub open spec fn is_digit(c: char) -> bool {
    '0' <= c <= '9'
}

/// One or more decimal digits and nothing else.
pub open spec fn is_digits(s: Seq<char>) -> bool {
    &&& s.len() > 0
    &&& forall|i: int| 0 <= i < s.len() ==> is_digit(#[trigger] s[i])
}

/// The number that a run of decimal digits writes.
pub open spec fn digits_value(s: Seq<char>) -> nat
    decreases s.len(),
{
    if s.len() == 0 {
        0
    } else {
        (10 * digits_value(s.drop_last()) + (s.last() as int - '0' as int)) as nat
    }
}

/// The integer that an optional sign and a run of digits write.
pub open spec fn signed_value(s: Seq<char>) -> Option<int> {
    if is_digits(s) {
        Some(digits_value(s) as int)
    } else if s.len() > 0 && s[0] == '+' && is_digits(s.skip(1)) {
        Some(digits_value(s.skip(1)) as int)
    } else if s.len() > 0 && s[0] == '-' && is_digits(s.skip(1)) {
        Some(-(digits_value(s.skip(1)) as int))
    } else {
        None
    }
}

/// The integer that a text writes, where it lies between `lo` and `hi`.
pub open spec fn value_within(s: Seq<char>, lo: int, hi: int) -> Option<int> {
    match signed_value(s) {
        Some(v) => if lo <= v <= hi {
            Some(v)
        } else {
            None
        },
        None => None,
    }
}

/// The `i64` that a text writes: an optional sign and decimal digits, within range.
pub open spec fn i64_value(s: Seq<char>) -> Option<i64> {
    match value_within(s, i64::MIN as int, i64::MAX as int) {
        Some(v) => Some(v as i64),
        None => None,
    }
}

/// The unsigned integer up to `hi` that a text writes; a minus sign is never accepted.
pub open spec fn unsigned_value(s: Seq<char>, hi: int) -> Option<int> {
    if s.len() > 0 && s[0] == '-' {
        None
    } else {
        value_within(s, 0, hi)
    }
}

/// The text of one decimal digit.
fn digit_text(d: u64) -> (r: &'static str)
    requires
        d < 10,
    ensures
        r@ == seq![digit_char(d as int)],
{
    proof {
        reveal_strlit("0");
        reveal_strlit("1");
        reveal_strlit("2");
        reveal_strlit("3");
        reveal_strlit("4");
        reveal_strlit("5");
        reveal_strlit("6");
        reveal_strlit("7");
        reveal_strlit("8");
        reveal_strlit("9");
    }
    let r: &'static str = if d == 0 {
        "0"
    } else if d == 1 {
        "1"
    } else if d == 2 {
        "2"
    } else if d == 3 {
        "3"
    } else if d == 4 {
        "4"
    } else if d == 5 {
        "5"
    } else if d == 6 {
        "6"
    } else if d == 7 {
        "7"
    } else if d == 8 {
        "8"
    } else {
        "9"
    };
    assert(r@ =~= seq![digit_char(d as int)]);
    r
}

/// Appends the digits of `n`.
fn push_digits(out: &mut String, n: u64)
    ensures
        final(out)@ == old(out)@ + digits(n as nat),
    decreases n,
{
    if n >= 10 {
        push_digits(out, n / 10);
    }
    let ghost before = out@;
    out.append(digit_text(n % 10));
    proof {
        if n >= 10 {
            assert(out@ =~= old(out)@ + digits((n / 10) as nat).push(digit_char((n % 10) as int)));
        } else {
            assert(before == old(out)@);
        }
    }
}

/// The decimal form of `n`.
pub fn format_i64(n: i64) -> (r: String)
    ensures
        r@ == decimal(n as int),
{
    if n < 0 {
        let magnitude: u64 = (-(n + 1)) as u64 + 1;
        let mut out: String = "-".to_owned();
        proof {
            reveal_strlit("-");
            assert(out@ =~= seq!['-']);
        }
        push_digits(&mut out, magnitude);
        out
    } else {
        let mut out: String = String::new();
        push_digits(&mut out, n as u64);
        assert(out@ =~= digits(n as nat));
        out
    }
}

/// The value of a digit, where the character is one.
fn digit_value(c: char) -> (r: Option<u64>)
    ensures
        match r {
            Some(d) => is_digit(c) && d < 10 && d == c as int - '0' as int,
            None => !is_digit(c),
        },
{
    if '0' <= c && c <= '9' {
        Some((c as u32 - '0' as u32) as u64)
    } else {
        None
    }
}

/// A longer run of digits writes a number at least as large.
proof fn lemma_digits_value_prefix(s: Seq<char>, k: int)
    requires
        forall|i: int| 0 <= i < s.len() ==> is_digit(#[trigger] s[i]),
        0 <= k <= s.len(),
    ensures
        digits_value(s.take(k)) <= digits_value(s),
    decreases s.len(),
{
    if k == s.len() {
        assert(s.take(k) =~= s);
    } else {
        let t = s.drop_last();
        assert forall|i: int| 0 <= i < t.len() implies is_digit(#[trigger] t[i]) by {
            assert(t[i] == s[i]);
        }
        lemma_digits_value_prefix(t, k);
        assert(t.take(k) =~= s.take(k));
        assert(is_digit(s[s.len() - 1]));
    }
}

/// The number that the characters from `from` on write in decimal, where they are digits
/// and it does not exceed `max`.
fn parse_digits(s: &Vec<char>, from: usize, max: u64) -> (r: Option<u64>)
    requires
        from <= s@.len(),
    ensures
        match r {
            Some(v) => is_digits(s@.skip(from as int)) && v == digits_value(s@.skip(from as int))
                && v <= max,
            None => !is_digits(s@.skip(from as int)) || digits_value(s@.skip(from as int)) > max,
        },
{
    let ghost run = s@.skip(from as int);
    if from == s.len() {
        return None;
    }
    let mut value: u64 = 0;
    let mut at: usize = from;
    assert(run.take(0) =~= Seq::<char>::empty());
    while at < s.len()
        invariant
            from <= at <= s@.len(),
            run == s@.skip(from as int),
            forall|i: int| 0 <= i < at - from ==> is_digit(#[trigger] run[i]),
            value == digits_value(run.take(at - from)),
            value <= max,
        decreases s@.len() - at,
    {
        assert(run[at - from] == s@[at as int]);
        let ghost next = run.take(at - from + 1);
        assert(next.drop_last() =~= run.take(at - from));
        match digit_value(s[at]) {
            Some(d) => {
                if d > max || value > (max - d) / 10 {
                    proof {
                        assert(digits_value(next) == 10 * value + d);
                        if is_digits(run) {
                            lemma_digits_value_prefix(run, at - from + 1);
                        }
                    }
                    return None;
                }
                value = 10 * value + d;
            },
            None => {
                return None;
            },
        }
        at = at + 1;
    }
    assert(run.take(at - from) =~= run);
    Some(value)
}

/// The `i64` that a text writes: an optional sign and decimal digits, within range.
pub fn parse_i64(s: &str) -> (r: Option<i64>)
    ensures
        r == i64_value(s@),
{
    let c: Vec<char> = chars_of(s);
    assert(s@.skip(0) =~= s@);
    if c.len() == 0 {
        return None;
    }
    if c[0] == '-' {
        assert(!is_digit(s@[0]));
        match parse_digits(&c, 1, 0x8000_0000_0000_0000) {
            Some(v) => {
                if v == 0x8000_0000_0000_0000 {
                    Some(i64::MIN)
                } else {
                    Some(-(v as i64))
                }
            },
            None => None,
        }
    } else {
        let from: usize = if c[0] == '+' {
            assert(!is_digit(s@[0]));
            1
        } else {
            0
        };
        match parse_digits(&c, from, 0x7fff_ffff_ffff_ffff) {
            Some(v) => Some(v as i64),
            None => None,
        }
    }
}

/// The unsigned integer up to `max` that a text writes: an optional plus sign and decimal
/// digits.
pub fn parse_unsigned(s: &str, max: u64) -> (r: Option<u64>)
    ensures
        match r {
            Some(v) => unsigned_value(s@, max as int) == Some(v as int),
            None => unsigned_value(s@, max as int) is None,
        },
{
    let c: Vec<char> = chars_of(s);
    assert(s@.skip(0) =~= s@);
    if c.len() == 0 {
        return None;
    }
    let from: usize = if c[0] == '+' {
        assert(!is_digit(s@[0]));
        1
    } else {
        0
    };
    if c[0] == '-' {
        return None;
    }
    parse_digits(&c, from, max)
}

/// The digits of a number are decimal digits, and write that number.
pub proof fn lemma_digits(n: nat)
    ensures
        is_digits(digits(n)),
        digits_value(digits(n)) == n,
    decreases n,
{
    if n < 10 {
        let s = digits(n);
        assert(s.drop_last() =~= Seq::<char>::empty());
        assert(digits_value(s.drop_last()) == 0);
    } else {
        lemma_digits(n / 10);
        let s = digits(n);
        let front = digits(n / 10);
        assert(s.drop_last() =~= front);
        assert forall|i: int| 0 <= i < s.len() implies is_digit(#[trigger] s[i]) by {
            if i < front.len() {
                assert(s[i] == front[i]);
            }
        }
    }
}

/// Every `i64` is read back from its decimal form.
pub proof fn law_decimal_round_trip(n: i64)
    ensures
        i64_value(decimal(n as int)) == Some(n),
{
    if n < 0 {
        lemma_digits((-n) as nat);
        let s = decimal(n as int);
        assert(s.skip(1) =~= digits((-n) as nat));
        assert(s[0] == '-');
        assert(!is_digits(s));
    } else {
        lemma_digits(n as nat);
    }
}

/// No character of a decimal form is anything but a digit or the minus sign.
pub proof fn lemma_decimal_chars(n: int, c: char)
    requires
        !is_digit(c),
        c != '-',
    ensures
        !decimal(n).contains(c),
        decimal(n).len() > 0,
{
    if n < 0 {
        lemma_digits((-n) as nat);
        let s = decimal(n);
        assert forall|i: int| 0 <= i < s.len() implies s[i] != c by {
            if i > 0 {
                assert(s[i] == digits((-n) as nat)[i - 1]);
                assert(is_digit(digits((-n) as nat)[i - 1]));
            }
        }
    } else {
        lemma_digits(n as nat);
        assert forall|i: int| 0 <= i < decimal(n).len() implies decimal(n)[i] != c by {
            assert(is_digit(digits(n as nat)[i]));
        }
    }
}

// ---------------------------------------------------------------------------
// Laws
// ---------------------------------------------------------------------------

/// A pattern stands at a position exactly where the text has each of its characters there.
pub proof fn law_occurrences_match_character_by_character(
    s: Seq<char>,
    pattern: Seq<char>,
    at: int,
)
    ensures
        occurs_at(s, pattern, at) <==> (0 <= at && at + pattern.len() <= s.len() && forall|j: int|
            0 <= j < pattern.len() ==> s[at + j] == #[trigger] pattern[j]),
{
    if 0 <= at && at + pattern.len() <= s.len() {
        let part = s.subrange(at, at + pattern.len());
        if forall|j: int| 0 <= j < pattern.len() ==> s[at + j] == #[trigger] pattern[j] {
            assert(part =~= pattern);
        }
        if part == pattern {
            assert forall|j: int| 0 <= j < pattern.len() implies s[at + j]
                == #[trigger] pattern[j] by {
                assert(part[j] == pattern[j]);
            }
        }
    }
}

/// A text contains a pattern exactly where it is something, the pattern, and something more;
/// it begins with it where nothing stands before, and ends with it where nothing follows.
pub proof fn law_containing_is_having_around(s: Seq<char>, pattern: Seq<char>)
    ensures
        contains_text(s, pattern) <==> exists|before: Seq<char>, after: Seq<char>|
            s == #[trigger] (before + pattern + after),
        begins_with(s, pattern) <==> exists|after: Seq<char>| s == #[trigger] (pattern + after),
        finishes_with(s, pattern) <==> exists|before: Seq<char>| s == #[trigger] (before + pattern),
{
    if contains_text(s, pattern) {
        let at = choose|at: int| occurs_at(s, pattern, at);
        let before = s.take(at);
        let after = s.skip(at + pattern.len());
        assert(s =~= before + pattern + after);
    }
    if exists|before: Seq<char>, after: Seq<char>| s == #[trigger] (before + pattern + after) {
        let (before, after) = choose|before: Seq<char>, after: Seq<char>|
            s == #[trigger] (before + pattern + after);
        let at = before.len() as int;
        assert(s.subrange(at, at + pattern.len()) =~= pattern);
        assert(occurs_at(s, pattern, at));
    }
    if begins_with(s, pattern) {
        assert(s =~= pattern + s.skip(pattern.len() as int));
    }
    if exists|after: Seq<char>| s == #[trigger] (pattern + after) {
        let after = choose|after: Seq<char>| s == #[trigger] (pattern + after);
        assert(s.subrange(0, pattern.len() as int) =~= pattern);
    }
    if finishes_with(s, pattern) {
        assert(s =~= s.take(s.len() - pattern.len()) + pattern);
    }
    if exists|before: Seq<char>| s == #[trigger] (before + pattern) {
        let before = choose|before: Seq<char>| s == #[trigger] (before + pattern);
        assert(s.subrange(s.len() - pattern.len(), s.len() as int) =~= pattern);
    }
}

/// Pieces put together again, with a separator between each two.
pub open spec fn joined(pieces: Seq<Seq<char>>, sep: char) -> Seq<char>
    decreases pieces.len(),
{
    if pieces.len() == 0 {
        Seq::empty()
    } else if pieces.len() == 1 {
        pieces[0]
    } else {
        pieces[0].push(sep) + joined(pieces.skip(1), sep)
    }
}

/// Splitting takes out the separators and nothing else: there is at least one piece, no piece
/// holds a separator, and the pieces put together again are the text.
pub proof fn law_pieces_make_up_the_text(s: Seq<char>, sep: char)
    ensures
        split_text(s, sep).len() > 0,
        forall|i: int|
            0 <= i < split_text(s, sep).len() ==> !(#[trigger] split_text(s, sep)[i]).contains(sep),
        joined(split_text(s, sep), sep) == s,
    decreases s.len(),
{
    lemma_index_of_char(s, sep);
    let at = index_of_char(s, sep);
    let pieces = split_text(s, sep);
    if at < s.len() {
        let rest = s.skip(at + 1);
        law_pieces_make_up_the_text(rest, sep);
        let more = split_text(rest, sep);
        assert(pieces == seq![s.take(at)] + more);
        assert(pieces.skip(1) =~= more);
        assert forall|i: int| 0 <= i < pieces.len() implies !(#[trigger] pieces[i]).contains(
            sep,
        ) by {
            if i > 0 {
                assert(pieces[i] == more[i - 1]);
            }
        }
        assert(s =~= s.take(at).push(sep) + rest);
    }
}

/// The first separator parts a text into what stands before it and what follows; where there
/// is none, there is nothing to part.
pub proof fn law_the_first_separator_parts(s: Seq<char>, sep: char)
    ensures
        match split_once_text(s, sep) {
            Some((left, right)) => s == left.push(sep) + right && !left.contains(sep),
            None => !s.contains(sep),
        },
{
    lemma_index_of_char(s, sep);
    if let Some((left, right)) = split_once_text(s, sep) {
        assert(s =~= left.push(sep) + right);
    }
}

/// Stripping a prefix is undone by putting it back, and fails only on a text that does not
/// begin with it.
pub proof fn law_stripped_prefixes_can_be_put_back(s: Seq<char>, prefix: Seq<char>)
    ensures
        match strip_prefix_text(s, prefix) {
            Some(rest) => s == prefix + rest,
            None => forall|rest: Seq<char>| s != #[trigger] (prefix + rest),
        },
{
    law_containing_is_having_around(s, prefix);
    if let Some(rest) = strip_prefix_text(s, prefix) {
        assert(s =~= prefix + rest);
    }
}

/// What trimming keeps at the start.
proof fn lemma_trim_start(s: Seq<char>) -> (a: int)
    ensures
        0 <= a <= s.len(),
        trim_start_text(s) == s.skip(a),
        forall|i: int| 0 <= i < a ==> is_white_space(s[i]),
        a < s.len() ==> !is_white_space(s[a]),
    decreases s.len(),
{
    if s.len() > 0 && is_white_space(s[0]) {
        let t = s.skip(1);
        let b = lemma_trim_start(t);
        assert(t.skip(b) =~= s.skip(b + 1));
        assert forall|i: int| 0 <= i < b + 1 implies is_white_space(s[i]) by {
            if i > 0 {
                assert(s[i] == t[i - 1]);
            }
        }
        assert(b < t.len() ==> t[b] == s[b + 1]);
        b + 1
    } else {
        assert(s.skip(0) =~= s);
        0
    }
}

/// What trimming keeps at the end.
proof fn lemma_trim_end(s: Seq<char>) -> (b: int)
    ensures
        0 <= b <= s.len(),
        trim_end_text(s) == s.take(b),
        forall|i: int| b <= i < s.len() ==> is_white_space(s[i]),
        b > 0 ==> !is_white_space(s[b - 1]),
    decreases s.len(),
{
    if s.len() > 0 && is_white_space(s.last()) {
        let t = s.drop_last();
        let b = lemma_trim_end(t);
        assert(t.take(b) =~= s.take(b));
        assert forall|i: int| b <= i < s.len() implies is_white_space(s[i]) by {
            if i < t.len() {
                assert(s[i] == t[i]);
            }
        }
        assert(b > 0 ==> t[b - 1] == s[b - 1]);
        b
    } else {
        assert(s.take(s.len() as int) =~= s);
        s.len() as int
    }
}

/// Trimming takes white space off both ends and nothing else: what it takes away is white
/// space, and what it leaves neither begins nor ends with any.
pub proof fn law_trimming_takes_white_space_off_the_ends(s: Seq<char>)
    ensures
        exists|a: int, b: int|
            0 <= a <= b <= s.len() && trim_text(s) == #[trigger] s.subrange(a, b) && (forall|i: int|
                0 <= i < a ==> is_white_space(#[trigger] s[i])) && (forall|i: int|
                b <= i < s.len() ==> is_white_space(#[trigger] s[i])),
        trim_text(s).len() > 0 ==> !is_white_space(trim_text(s)[0]) && !is_white_space(
            trim_text(s).last(),
        ),
{
    let a = lemma_trim_start(s);
    let t = s.skip(a);
    let k = lemma_trim_end(t);
    let b = a + k;
    assert(t.take(k) =~= s.subrange(a, b));
    assert forall|i: int| b <= i < s.len() implies is_white_space(#[trigger] s[i]) by {
        assert(t[i - a] == s[i]);
    }
    let r = trim_text(s);
    if r.len() > 0 {
        assert(r[0] == s[a]);
        assert(r.last() == t[k - 1]);
    }
}

/// Ten to the power of `n`.
pub open spec fn power_of_ten(n: nat) -> nat
    decreases n,
{
    if n == 0 {
        1
    } else {
        10 * power_of_ten((n - 1) as nat)
    }
}

/// Decimal digits count by position: one digit writes its own value, and digits in front of
/// others weigh ten times as much for each of those.
pub proof fn law_digits_count_by_position(front: Seq<char>, back: Seq<char>, c: char)
    requires
        forall|i: int| 0 <= i < front.len() ==> is_digit(#[trigger] front[i]),
        forall|i: int| 0 <= i < back.len() ==> is_digit(#[trigger] back[i]),
        is_digit(c),
    ensures
        digits_value(seq![c]) == c as int - '0' as int,
        digits_value(front + back) == digits_value(front) * power_of_ten(back.len())
            + digits_value(back),
    decreases back.len(),
{
    assert(seq![c].drop_last() =~= Seq::<char>::empty());
    assert(digits_value(seq![c].drop_last()) == 0);
    if back.len() == 0 {
        assert(front + back =~= front);
        assert(power_of_ten(0) == 1);
    } else {
        let rest = back.drop_last();
        assert forall|i: int| 0 <= i < rest.len() implies is_digit(#[trigger] rest[i]) by {
            assert(rest[i] == back[i]);
        }
        law_digits_count_by_position(front, rest, c);
        assert((front + back).drop_last() =~= front + rest);
        assert((front + back).last() == back.last());
        assert(is_digit(back[back.len() - 1]));
        let d = back.last() as int - '0' as int;
        let a = digits_value(front) as int;
        let p = power_of_ten(rest.len()) as int;
        assert(10 * (a * p + digits_value(rest)) + d == a * (10 * p) + (10 * digits_value(rest)
            + d)) by (nonlinear_arith);
    }
}

/// A sign changes nothing but the sign: a plus leaves the number that digits write, a minus
/// negates it, and a text is an integer in these three forms only.
pub proof fn law_integers_are_signed_digits(s: Seq<char>, digits: Seq<char>)
    requires
        is_digits(digits),
    ensures
        signed_value(digits) == Some(digits_value(digits) as int),
        signed_value(seq!['+'] + digits) == Some(digits_value(digits) as int),
        signed_value(seq!['-'] + digits) == Some(-(digits_value(digits) as int)),
        signed_value(s) is Some ==> is_digits(s) || (s.len() > 1 && (s[0] == '+' || s[0] == '-')
            && is_digits(s.skip(1))),
{
    assert((seq!['+'] + digits).skip(1) =~= digits);
    assert((seq!['-'] + digits).skip(1) =~= digits);
    assert((seq!['+'] + digits)[0] == '+');
    assert((seq!['-'] + digits)[0] == '-');
    assert(!is_digits(seq!['+'] + digits));
    assert(!is_digits(seq!['-'] + digits));
}

/// A text is read as a bounded integer exactly where the number that it writes is in bounds,
/// and an unsigned one is never read from a minus sign.
pub proof fn law_numbers_out_of_range_are_not_read(s: Seq<char>, hi: int)
    requires
        0 <= hi,
    ensures
        match i64_value(s) {
            Some(v) => signed_value(s) == Some(v as int),
            None => signed_value(s) is None || signed_value(s)->0 < i64::MIN || signed_value(s)->0
                > i64::MAX,
        },
        match unsigned_value(s, hi) {
            Some(v) => signed_value(s) == Some(v) && 0 <= v <= hi && s[0] != '-',
            None => signed_value(s) is None || s[0] == '-' || signed_value(s)->0 > hi,
        },
{
}

/// A number is written in one way only: without a plus sign or a needless zero in front, and
/// a negative one as a minus sign and the number without it.
pub proof fn law_decimals_have_no_needless_characters(n: int)
    ensures
        n >= 0 ==> is_digits(decimal(n)) && (decimal(n)[0] == '0' ==> decimal(n).len() == 1),
        n < 0 ==> decimal(n) == seq!['-'] + decimal(-n),
{
    if n >= 0 {
        lemma_canonical_digits(n as nat);
    }
}

/// Digits without a needless zero in front.
proof fn lemma_canonical_digits(n: nat)
    ensures
        is_digits(digits(n)),
        digits(n)[0] == '0' ==> n == 0 && digits(n).len() == 1,
    decreases n,
{
    lemma_digits(n);
    if n >= 10 {
        lemma_canonical_digits(n / 10);
        assert(digits(n)[0] == digits(n / 10)[0]);
    }
}

/// The number that a decimal form writes.
pub proof fn lemma_decimal_value(n: int)
    ensures
        signed_value(decimal(n)) == Some(n),
        decimal(n).len() > 0,
        decimal(n)[0] == '-' <==> n < 0,
{
    let s = decimal(n);
    if n < 0 {
        lemma_digits((-n) as nat);
        let d = digits((-n) as nat);
        law_integers_are_signed_digits(s, d);
    } else {
        lemma_digits(n as nat);
        law_integers_are_signed_digits(s, s);
        assert(is_digit(s[0]));
    }
}

/// Digits without a needless zero in front are the digits of the number that they write.
pub proof fn lemma_digits_of_value(s: Seq<char>)
    requires
        is_digits(s),
        s[0] == '0' ==> s.len() == 1,
    ensures
        digits(digits_value(s)) == s,
    decreases s.len(),
{
    let t = s.drop_last();
    let v = digits_value(t);
    let c = s.last();
    assert(is_digit(s[s.len() - 1]));
    let d = (c as int - '0' as int) as nat;
    if s.len() == 1 {
        assert(t =~= Seq::<char>::empty());
        assert(digits_value(s) == d);
        assert(digits(d) =~= s);
    } else {
        assert forall|i: int| 0 <= i < t.len() implies is_digit(#[trigger] t[i]) by {
            assert(t[i] == s[i]);
        }
        assert(t[0] == s[0]);
        lemma_digits_of_value(t);
        if v == 0 {
            assert(digits(0)[0] == '0');
        }
        let n = digits_value(s);
        assert(n == 10 * v + d);
        assert(n / 10 == v && n % 10 == d);
        assert(digits(n) =~= t.push(c));
        assert(t.push(c) =~= s);
    }
}

/// Splitting undoes joining, as long as no piece holds the separator.
pub proof fn law_splitting_undoes_joining(pieces: Seq<Seq<char>>, sep: char)
    requires
        pieces.len() > 0,
        forall|i: int| 0 <= i < pieces.len() ==> !(#[trigger] pieces[i]).contains(sep),
    ensures
        split_text(joined(pieces, sep), sep) == pieces,
    decreases pieces.len(),
{
    assert(!pieces[0].contains(sep));
    if pieces.len() == 1 {
        lemma_split_whole(pieces[0], sep);
        assert(seq![pieces[0]] =~= pieces);
    } else {
        let rest = pieces.skip(1);
        assert forall|i: int| 0 <= i < rest.len() implies !(#[trigger] rest[i]).contains(sep) by {
            assert(rest[i] == pieces[i + 1]);
        }
        law_splitting_undoes_joining(rest, sep);
        lemma_split_first(pieces[0], sep, joined(rest, sep));
        assert(seq![pieces[0]] + rest =~= pieces);
    }
}

/// Every character of a text is a separator or stands in one of the pieces.
pub proof fn lemma_split_chars(s: Seq<char>, sep: char)
    ensures
        forall|i: int|
            0 <= i < s.len() && #[trigger] s[i] != sep ==> exists|k: int|
                0 <= k < split_text(s, sep).len() && (#[trigger] split_text(s, sep)[k]).contains(
                    s[i],
                ),
    decreases s.len(),
{
    lemma_index_of_char(s, sep);
    let at = index_of_char(s, sep);
    let pieces = split_text(s, sep);
    if at < s.len() {
        let rest = s.skip(at + 1);
        lemma_split_chars(rest, sep);
        let more = split_text(rest, sep);
        assert(pieces == seq![s.take(at)] + more);
        assert forall|i: int| 0 <= i < s.len() && #[trigger] s[i] != sep implies exists|k: int|
            0 <= k < pieces.len() && (#[trigger] pieces[k]).contains(s[i]) by {
            if i < at {
                assert(s.take(at)[i] == s[i]);
                assert(pieces[0].contains(s[i]));
            } else {
                assert(rest[i - at - 1] == s[i]);
                let k = choose|k: int| 0 <= k < more.len() && (#[trigger] more[k]).contains(s[i]);
                assert(pieces[k + 1] == more[k]);
            }
        }
    } else {
        assert(pieces == seq![s]);
        assert forall|i: int| 0 <= i < s.len() && #[trigger] s[i] != sep implies exists|k: int|
            0 <= k < pieces.len() && (#[trigger] pieces[k]).contains(s[i]) by {
            assert(pieces[0].contains(s[i]));
        }
    }
}

/// White space is the twenty-five code points that Unicode lists for it.
pub proof fn law_white_space_by_code_point(c: char)
    ensures
        is_white_space(c) <==> {
            let n = c as int;
            ||| n == 0x20 || (9 <= n && n <= 13)
            ||| n == 0x85 || n == 0xa0 || n == 0x1680
            ||| 0x2000 <= n && n <= 0x200a
            ||| n == 0x2028 || n == 0x2029 || n == 0x202f || n == 0x205f || n == 0x3000
        },
{
}

} // verus!
