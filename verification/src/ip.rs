//! The textual form of IP addresses.
//!
//! MediaWiki puts the address of an anonymous editor where a username would stand, so an
//! editor is anonymous exactly where the name is an address. The forms accepted are those
//! that Rust's `IpAddr` parses: dotted decimal without leading zeros, and the hexadecimal
//! groups of IPv6 with at most one `::` and an optional dotted-decimal tail.

use vstd::prelude::*;
use crate::text;

verus! {

/// One octet in decimal: one to three digits, no leading zero, at most 255.
pub open spec fn is_octet(s: Seq<char>) -> bool {
    &&& text::is_digits(s)
    &&& s.len() <= 3
    &&& (s[0] == '0' ==> s.len() == 1)
    &&& text::digits_value(s) <= 255
}

/// Four octets separated by dots.
pub open spec fn is_ipv4(s: Seq<char>) -> bool {
    let parts = text::split_text(s, '.');
    parts.len() == 4 && forall|i: int| 0 <= i < 4 ==> is_octet(#[trigger] parts[i])
}

/// A hexadecimal digit of either case.
pub open spec fn is_hex_digit(c: char) -> bool {
    text::is_digit(c) || 'a' <= c <= 'f' || 'A' <= c <= 'F'
}

/// One 16-bit group: one to four hexadecimal digits.
pub open spec fn is_group(s: Seq<char>) -> bool {
    &&& 1 <= s.len() <= 4
    &&& forall|i: int| 0 <= i < s.len() ==> is_hex_digit(#[trigger] s[i])
}

/// Every part is a group.
pub open spec fn all_groups(parts: Seq<Seq<char>>) -> bool {
    forall|i: int| 0 <= i < parts.len() ==> is_group(#[trigger] parts[i])
}

/// How many groups the parts between colons write, where they do: an address in dotted
/// decimal may stand last, and counts for two.
pub open spec fn groups_with_tail(parts: Seq<Seq<char>>) -> Option<int> {
    if all_groups(parts) {
        Some(parts.len() as int)
    } else if parts.len() > 0 && all_groups(parts.drop_last()) && is_ipv4(parts.last()) {
        Some(parts.len() as int + 1)
    } else {
        None
    }
}

/// How many groups a side of `::` writes, where it does; an empty side writes none.
pub open spec fn side(s: Seq<char>, tail: bool) -> Option<int> {
    if s.len() == 0 {
        Some(0)
    } else if tail {
        groups_with_tail(text::split_text(s, ':'))
    } else if all_groups(text::split_text(s, ':')) {
        Some(text::split_text(s, ':').len() as int)
    } else {
        None
    }
}

/// The position of the first `::`, or -1 where there is none.
pub open spec fn first_double_colon(s: Seq<char>) -> int
    decreases s.len(),
{
    if s.len() < 2 {
        -1
    } else if s[0] == ':' && s[1] == ':' {
        0
    } else {
        let rest = first_double_colon(s.skip(1));
        if rest < 0 {
            -1
        } else {
            rest + 1
        }
    }
}

/// Eight groups; or two sides of a `::` that stands for at least one group of zeros.
pub open spec fn is_ipv6(s: Seq<char>) -> bool {
    let at = first_double_colon(s);
    if at < 0 {
        groups_with_tail(text::split_text(s, ':')) == Some(8int)
    } else {
        match (side(s.take(at), false), side(s.skip(at + 2), true)) {
            (Some(head), Some(tail)) => head + tail <= 7,
            _ => false,
        }
    }
}

/// An IP address of either version.
pub open spec fn is_ip_address(s: Seq<char>) -> bool {
    is_ipv4(s) || is_ipv6(s)
}

/// Whether a text is one octet in decimal.
fn octet(s: &str) -> (r: bool)
    ensures
        r == is_octet(s@),
{
    let c: Vec<char> = text::chars_of(s);
    if c.len() == 0 || c.len() > 3 {
        return false;
    }
    if c[0] == '0' && c.len() > 1 {
        return false;
    }
    if c[0] == '+' || c[0] == '-' {
        assert(!text::is_digit(s@[0]));
        return false;
    }
    match text::parse_unsigned(s, 255) {
        Some(_) => true,
        None => false,
    }
}

/// Whether a text is an address in dotted decimal.
pub fn ipv4(s: &str) -> (r: bool)
    ensures
        r == is_ipv4(s@),
{
    let parts: Vec<String> = text::split(s, '.');
    let ghost view = text::split_text(s@, '.');
    assert(view.len() == parts@.len());
    if parts.len() != 4 {
        return false;
    }
    assert(forall|i: int| 0 <= i < 4 ==> view[i] == (#[trigger] parts@[i])@);
    let mut i: usize = 0;
    while i < 4
        invariant
            i <= 4,
            parts@.len() == 4,
            view.len() == 4,
            view == text::split_text(s@, '.'),
            forall|k: int| 0 <= k < 4 ==> #[trigger] view[k] == parts@[k]@,
            forall|k: int| 0 <= k < i ==> is_octet(#[trigger] view[k]),
        decreases 4 - i,
    {
        assert(view[i as int] == parts@[i as int]@);
        if !octet(parts[i].as_str()) {
            return false;
        }
        i = i + 1;
    }
    true
}

/// Whether a text is one hexadecimal group.
fn hex_group(s: &str) -> (r: bool)
    ensures
        r == is_group(s@),
{
    let c: Vec<char> = text::chars_of(s);
    if c.len() < 1 || c.len() > 4 {
        return false;
    }
    let mut i: usize = 0;
    while i < c.len()
        invariant
            c@ == s@,
            i <= c@.len(),
            forall|k: int| 0 <= k < i ==> is_hex_digit(#[trigger] s@[k]),
        decreases c@.len() - i,
    {
        let d: char = c[i];
        let hex: bool = ('0' <= d && d <= '9') || ('a' <= d && d <= 'f') || ('A' <= d && d <= 'F');
        if !hex {
            assert(!is_hex_digit(s@[i as int]));
            return false;
        }
        i = i + 1;
    }
    true
}

/// How many parts, from the first on, are groups before one that is not.
fn leading_groups(parts: &Vec<String>) -> (r: usize)
    ensures
        r <= parts@.len(),
        forall|i: int| 0 <= i < r ==> is_group(#[trigger] text::texts(parts@)[i]),
        r < parts@.len() ==> !is_group(text::texts(parts@)[r as int]),
{
    let mut i: usize = 0;
    while i < parts.len() && hex_group(parts[i].as_str())
        invariant
            i <= parts@.len(),
            forall|k: int| 0 <= k < i ==> is_group(#[trigger] text::texts(parts@)[k]),
        decreases parts@.len() - i,
    {
        i = i + 1;
    }
    i
}

/// How many groups the parts between colons write, a dotted-decimal address at the end
/// counting for two where `tail` allows it.
fn count_groups(parts: &Vec<String>, tail: bool) -> (r: Option<u128>)
    ensures
        match r {
            Some(n) => n <= usize::MAX + 1 && if tail {
                groups_with_tail(text::texts(parts@)) == Some(n as int)
            } else {
                all_groups(text::texts(parts@)) && n == parts@.len()
            },
            None => if tail {
                groups_with_tail(text::texts(parts@)) is None
            } else {
                !all_groups(text::texts(parts@))
            },
        },
{
    let ghost view = text::texts(parts@);
    let lead: usize = leading_groups(parts);
    if lead == parts.len() {
        return Some(lead as u128);
    }
    assert(!all_groups(view)) by {
        assert(!is_group(view[lead as int]));
    }
    if !tail {
        return None;
    }
    if lead + 1 == parts.len() {
        assert(all_groups(view.drop_last())) by {
            assert forall|i: int| 0 <= i < view.drop_last().len() implies is_group(
                #[trigger] view.drop_last()[i],
            ) by {
                assert(view.drop_last()[i] == view[i]);
            }
        }
        if ipv4(parts[lead].as_str()) {
            return Some(lead as u128 + 2);
        }
    } else {
        assert(!all_groups(view.drop_last())) by {
            assert(view.drop_last()[lead as int] == view[lead as int]);
        }
    }
    None
}

/// The position of the first `::`, where there is one.
fn double_colon(c: &Vec<char>) -> (r: Option<usize>)
    ensures
        match r {
            Some(at) => at + 2 <= c@.len() && first_double_colon(c@) == at,
            None => first_double_colon(c@) < 0,
        },
{
    let mut at: usize = 0;
    assert(c@.skip(0) =~= c@);
    while at < c.len() && c.len() - at >= 2
        invariant
            at <= c@.len(),
            first_double_colon(c@) == if first_double_colon(c@.skip(at as int)) < 0 {
                -1
            } else {
                first_double_colon(c@.skip(at as int)) + at
            },
        decreases c@.len() - at,
    {
        if c[at] == ':' && c[at + 1] == ':' {
            return Some(at);
        }
        assert(c@.skip(at as int).skip(1) =~= c@.skip(at + 1));
        at = at + 1;
    }
    None
}

/// How many groups a side of `::` writes, where it does.
fn count_side(s: &str, tail: bool) -> (r: Option<u128>)
    ensures
        match r {
            Some(n) => side(s@, tail) == Some(n as int) && n <= usize::MAX + 1,
            None => side(s@, tail) is None,
        },
{
    if s.is_empty() {
        return Some(0);
    }
    let parts: Vec<String> = text::split(s, ':');
    assert(text::texts(parts@).len() == parts@.len());
    count_groups(&parts, tail)
}

/// Whether a text is an IPv6 address.
pub fn ipv6(s: &str) -> (r: bool)
    ensures
        r == is_ipv6(s@),
{
    let c: Vec<char> = text::chars_of(s);
    let n: usize = c.len();
    match double_colon(&c) {
        None => {
            let parts: Vec<String> = text::split(s, ':');
            match count_groups(&parts, true) {
                Some(n) => n == 8,
                None => false,
            }
        },
        Some(at) => {
            let head: &str = s.substring_char(0, at);
            let tail: &str = s.substring_char(at + 2, n);
            assert(head@ =~= s@.take(at as int));
            assert(tail@ =~= s@.skip(at + 2));
            match (count_side(head, false), count_side(tail, true)) {
                (Some(h), Some(t)) => h + t <= 7,
                _ => false,
            }
        },
    }
}

/// Whether a text is an IP address of either version.
pub fn ip_address(s: &str) -> (r: bool)
    ensures
        r == is_ip_address(s@),
{
    ipv4(s) || ipv6(s)
}

// ---------------------------------------------------------------------------
// Laws
// ---------------------------------------------------------------------------

/// Four numbers with dots between them.
pub open spec fn dotted(a: int, b: int, c: int, d: int) -> Seq<char> {
    text::joined(seq![text::decimal(a), text::decimal(b), text::decimal(c), text::decimal(d)], '.')
}

/// An octet is the decimal form of a number from 0 to 255.
pub proof fn law_octets_are_small_numbers(s: Seq<char>)
    ensures
        is_octet(s) <==> exists|n: int| 0 <= n <= 255 && s == #[trigger] text::decimal(n),
{
    if is_octet(s) {
        text::lemma_digits_of_value(s);
        let n = text::digits_value(s) as int;
        assert(s == text::decimal(n));
    }
    if exists|n: int| 0 <= n <= 255 && s == #[trigger] text::decimal(n) {
        let n = choose|n: int| 0 <= n <= 255 && s == #[trigger] text::decimal(n);
        text::lemma_digits(n as nat);
        text::law_decimals_have_no_needless_characters(n);
        assert(s.len() <= 3) by {
            let m = n as nat;
            if m >= 10 {
                assert(text::digits(m).len() == text::digits(m / 10).len() + 1);
                if m / 10 >= 10 {
                    assert(text::digits(m / 10).len() == text::digits(m / 10 / 10).len() + 1);
                    assert(m / 10 / 10 < 10);
                }
            }
        }
    }
}

/// The IPv4 addresses are the texts of four numbers from 0 to 255 with dots between them, and
/// nothing else.
pub proof fn law_ipv4_addresses_are_four_small_numbers(s: Seq<char>)
    ensures
        is_ipv4(s) <==> exists|a: int, b: int, c: int, d: int|
            0 <= a <= 255 && 0 <= b <= 255 && 0 <= c <= 255 && 0 <= d <= 255 && s
                == #[trigger] dotted(a, b, c, d),
{
    if is_ipv4(s) {
        let parts = text::split_text(s, '.');
        text::law_pieces_make_up_the_text(s, '.');
        assert(is_octet(parts[0]) && is_octet(parts[1]) && is_octet(parts[2]) && is_octet(
            parts[3],
        ));
        law_octets_are_small_numbers(parts[0]);
        law_octets_are_small_numbers(parts[1]);
        law_octets_are_small_numbers(parts[2]);
        law_octets_are_small_numbers(parts[3]);
        let a = choose|n: int| 0 <= n <= 255 && parts[0] == #[trigger] text::decimal(n);
        let b = choose|n: int| 0 <= n <= 255 && parts[1] == #[trigger] text::decimal(n);
        let c = choose|n: int| 0 <= n <= 255 && parts[2] == #[trigger] text::decimal(n);
        let d = choose|n: int| 0 <= n <= 255 && parts[3] == #[trigger] text::decimal(n);
        assert(parts =~= seq![
            text::decimal(a),
            text::decimal(b),
            text::decimal(c),
            text::decimal(d),
        ]);
        assert(s == dotted(a, b, c, d));
    }
    if exists|a: int, b: int, c: int, d: int|
        0 <= a <= 255 && 0 <= b <= 255 && 0 <= c <= 255 && 0 <= d <= 255 && s == #[trigger] dotted(
            a,
            b,
            c,
            d,
        ) {
        let (a, b, c, d) = choose|a: int, b: int, c: int, d: int|
            0 <= a <= 255 && 0 <= b <= 255 && 0 <= c <= 255 && 0 <= d <= 255 && s
                == #[trigger] dotted(a, b, c, d);
        let pieces = seq![
            text::decimal(a),
            text::decimal(b),
            text::decimal(c),
            text::decimal(d),
        ];
        text::lemma_decimal_chars(a, '.');
        text::lemma_decimal_chars(b, '.');
        text::lemma_decimal_chars(c, '.');
        text::lemma_decimal_chars(d, '.');
        assert forall|i: int| 0 <= i < pieces.len() implies !(#[trigger] pieces[i]).contains(
            '.',
        ) by {
            assert(i == 0 || i == 1 || i == 2 || i == 3);
        }
        text::law_splitting_undoes_joining(pieces, '.');
        law_octets_are_small_numbers(pieces[0]);
        law_octets_are_small_numbers(pieces[1]);
        law_octets_are_small_numbers(pieces[2]);
        law_octets_are_small_numbers(pieces[3]);
        assert forall|i: int| 0 <= i < 4 implies is_octet(#[trigger] pieces[i]) by {
            assert(i == 0 || i == 1 || i == 2 || i == 3);
        }
    }
}

/// What the first double colon is: the first place where two colons stand side by side.
pub proof fn law_the_first_double_colon(s: Seq<char>)
    ensures
        ({
            let at = first_double_colon(s);
            &&& at >= 0 ==> at + 1 < s.len() && s[at] == ':' && s[at + 1] == ':'
            &&& forall|j: int|
                0 <= j < s.len() - 1 && (at < 0 || j < at) ==> !((#[trigger] s[j]) == ':' && s[j + 1]
                    == ':')
        }),
    decreases s.len(),
{
    if s.len() >= 2 && !(s[0] == ':' && s[1] == ':') {
        let t = s.skip(1);
        law_the_first_double_colon(t);
        let at = first_double_colon(s);
        if at >= 0 {
            assert(t[at - 1] == s[at] && t[at] == s[at + 1]);
        }
        assert forall|j: int| 0 <= j < s.len() - 1 && (at < 0 || j < at) implies !((
        #[trigger] s[j]) == ':' && s[j + 1] == ':') by {
            if j > 0 {
                assert(t[j - 1] == s[j] && t[j] == s[j + 1]);
            }
        }
    }
}

/// A place where two colons stand side by side, and none before it, is the first.
proof fn lemma_double_colon_at(s: Seq<char>, at: int)
    requires
        0 <= at < s.len() - 1,
        s[at] == ':',
        s[at + 1] == ':',
        forall|j: int| 0 <= j < at ==> !((#[trigger] s[j]) == ':' && s[j + 1] == ':'),
    ensures
        first_double_colon(s) == at,
{
    law_the_first_double_colon(s);
    let first = first_double_colon(s);
    if first < 0 || first > at {
        assert(s[at] == ':');
    } else if first < at {
        assert(s[first] == ':');
    }
}

/// A group is one to four hexadecimal digits, in either case.
pub proof fn law_groups_are_short_hexadecimal_numbers(s: Seq<char>)
    ensures
        is_group(s) <==> (s.len() == 1 || s.len() == 2 || s.len() == 3 || s.len() == 4) && forall|
            i: int,
        |
            0 <= i < s.len() ==> '0' <= (#[trigger] s[i]) <= '9' || 'a' <= s[i] <= 'f' || 'A' <= s[i]
                <= 'F',
{
}

/// Groups with single colons between them hold no double colon, and end with none.
proof fn lemma_no_double_colon(parts: Seq<Seq<char>>)
    requires
        parts.len() > 0,
        forall|i: int|
            0 <= i < parts.len() ==> (#[trigger] parts[i]).len() > 0 && !parts[i].contains(':'),
    ensures
        text::joined(parts, ':').len() > 0,
        text::joined(parts, ':')[0] != ':',
        text::joined(parts, ':').last() != ':',
        forall|j: int|
            0 <= j < text::joined(parts, ':').len() - 1 ==> !((#[trigger] text::joined(
                parts,
                ':',
            )[j]) == ':' && text::joined(parts, ':')[j + 1] == ':'),
    decreases parts.len(),
{
    let s = text::joined(parts, ':');
    let first = parts[0];
    assert(first.len() > 0 && !first.contains(':'));
    assert forall|j: int| 0 <= j < first.len() implies #[trigger] first[j] != ':' by {
        assert(first.contains(first[j]));
    }
    if parts.len() == 1 {
        assert(s == first);
    } else {
        let rest = parts.skip(1);
        assert forall|i: int| 0 <= i < rest.len() implies (#[trigger] rest[i]).len() > 0
            && !rest[i].contains(':') by {
            assert(rest[i] == parts[i + 1]);
        }
        lemma_no_double_colon(rest);
        let t = text::joined(rest, ':');
        assert(s == first.push(':') + t);
        assert(s[0] == first[0]);
        assert(s.last() == t.last());
        assert forall|j: int| 0 <= j < s.len() - 1 implies !((#[trigger] s[j]) == ':' && s[j + 1]
            == ':') by {
            if j < first.len() {
                assert(s[j] == first[j]);
            } else if j == first.len() {
                assert(s[j + 1] == t[0]);
            } else {
                let k = j - first.len() - 1;
                assert(s[j] == t[k] && s[j + 1] == t[k + 1]);
            }
        }
    }
}

/// A group holds neither a colon nor nothing.
proof fn lemma_groups_hold_no_colon(parts: Seq<Seq<char>>)
    requires
        all_groups(parts),
    ensures
        forall|i: int|
            0 <= i < parts.len() ==> (#[trigger] parts[i]).len() > 0 && !parts[i].contains(':'),
{
    assert forall|i: int| 0 <= i < parts.len() implies (#[trigger] parts[i]).len() > 0
        && !parts[i].contains(':') by {
        assert(is_group(parts[i]));
        assert forall|j: int| 0 <= j < parts[i].len() implies parts[i][j] != ':' by {
            assert(is_hex_digit(parts[i][j]));
        }
    }
}

/// Groups with single colons between them are an IPv6 address exactly where there are eight.
pub proof fn law_eight_groups_are_an_address(parts: Seq<Seq<char>>)
    requires
        parts.len() > 0,
        all_groups(parts),
    ensures
        is_ipv6(text::joined(parts, ':')) <==> parts.len() == 8,
{
    let s = text::joined(parts, ':');
    lemma_groups_hold_no_colon(parts);
    lemma_no_double_colon(parts);
    law_the_first_double_colon(s);
    let at = first_double_colon(s);
    if at >= 0 {
        assert(s[at] == ':' && s[at + 1] == ':');
    }
    text::law_splitting_undoes_joining(parts, ':');
}

/// The last two groups may be written as an IPv4 address: behind single colons, six groups
/// come before it.
pub proof fn law_an_ipv4_address_counts_for_two_groups(parts: Seq<Seq<char>>, quad: Seq<char>)
    requires
        all_groups(parts),
        is_ipv4(quad),
    ensures
        is_ipv6(text::joined(parts.push(quad), ':')) <==> parts.len() == 6,
{
    let all = parts.push(quad);
    let s = text::joined(all, ':');
    lemma_groups_hold_no_colon(parts);
    lemma_quad(quad);
    assert forall|i: int| 0 <= i < all.len() implies (#[trigger] all[i]).len() > 0
        && !all[i].contains(':') by {
        if i < parts.len() {
            assert(all[i] == parts[i]);
        }
    }
    lemma_no_double_colon(all);
    law_the_first_double_colon(s);
    let at = first_double_colon(s);
    if at >= 0 {
        assert(s[at] == ':' && s[at + 1] == ':');
    }
    text::law_splitting_undoes_joining(all, ':');
    assert(all.drop_last() =~= parts);
    assert(all.last() == quad);
    assert(!is_group(all[all.len() - 1]));
}

/// An IPv4 address holds no colon, is not nothing, and is no group.
proof fn lemma_quad(quad: Seq<char>)
    requires
        is_ipv4(quad),
    ensures
        quad.len() > 0,
        !quad.contains(':'),
        !is_group(quad),
        forall|i: int| 0 <= i < quad.len() ==> text::is_digit(#[trigger] quad[i]) || quad[i] == '.',
{
    let parts = text::split_text(quad, '.');
    text::lemma_split_chars(quad, '.');
    text::law_pieces_make_up_the_text(quad, '.');
    assert forall|i: int| 0 <= i < quad.len() implies text::is_digit(#[trigger] quad[i]) || quad[i]
        == '.' by {
        if quad[i] != '.' {
            let k = choose|k: int|
                0 <= k < parts.len() && (#[trigger] parts[k]).contains(quad[i]);
            assert(is_octet(parts[k]));
            let j = choose|j: int| 0 <= j < parts[k].len() && parts[k][j] == quad[i];
            assert(text::is_digit(parts[k][j]));
        }
    }
    let head = parts[0];
    assert(is_octet(head));
    assert(quad == head.push('.') + text::joined(parts.skip(1), '.'));
    assert(quad[head.len() as int] == '.');
    assert(!is_hex_digit(quad[head.len() as int]));
}

/// A double colon stands for at least one group of zeros: between two sides of groups it makes
/// an IPv6 address exactly where the sides have at most seven groups together.
pub proof fn law_a_double_colon_stands_for_groups_of_zeros(
    head: Seq<Seq<char>>,
    tail: Seq<Seq<char>>,
)
    requires
        all_groups(head),
        all_groups(tail),
    ensures
        is_ipv6(text::joined(head, ':') + seq![':', ':'] + text::joined(tail, ':')) <==> head.len()
            + tail.len() <= 7,
{
    let a = text::joined(head, ':');
    let b = text::joined(tail, ':');
    let s = a + seq![':', ':'] + b;
    let at = a.len() as int;
    lemma_groups_hold_no_colon(head);
    lemma_groups_hold_no_colon(tail);
    if head.len() > 0 {
        lemma_no_double_colon(head);
        text::law_splitting_undoes_joining(head, ':');
    }
    if tail.len() > 0 {
        lemma_no_double_colon(tail);
        text::law_splitting_undoes_joining(tail, ':');
    }
    assert(s[at] == ':' && s[at + 1] == ':');
    assert forall|j: int| 0 <= j < at implies !((#[trigger] s[j]) == ':' && s[j + 1] == ':') by {
        assert(s[j] == a[j]);
        if j + 1 < at {
            assert(s[j + 1] == a[j + 1]);
        } else {
            assert(a[j] == a.last());
        }
    }
    lemma_double_colon_at(s, at);
    assert(s.take(at) =~= a);
    assert(s.skip(at + 2) =~= b);
}

/// Where an IPv4 address stands last behind a double colon, it counts for two groups there too.
pub proof fn law_an_ipv4_address_may_end_the_tail(
    head: Seq<Seq<char>>,
    tail: Seq<Seq<char>>,
    quad: Seq<char>,
)
    requires
        all_groups(head),
        all_groups(tail),
        is_ipv4(quad),
    ensures
        is_ipv6(
            text::joined(head, ':') + seq![':', ':'] + text::joined(tail.push(quad), ':'),
        ) <==> head.len() + tail.len() + 2 <= 7,
{
    let all = tail.push(quad);
    let a = text::joined(head, ':');
    let b = text::joined(all, ':');
    let s = a + seq![':', ':'] + b;
    let at = a.len() as int;
    lemma_groups_hold_no_colon(head);
    lemma_groups_hold_no_colon(tail);
    lemma_quad(quad);
    assert forall|i: int| 0 <= i < all.len() implies (#[trigger] all[i]).len() > 0
        && !all[i].contains(':') by {
        if i < tail.len() {
            assert(all[i] == tail[i]);
        }
    }
    if head.len() > 0 {
        lemma_no_double_colon(head);
        text::law_splitting_undoes_joining(head, ':');
    }
    lemma_no_double_colon(all);
    text::law_splitting_undoes_joining(all, ':');
    assert(all.drop_last() =~= tail);
    assert(all.last() == quad);
    assert(!is_group(all[all.len() - 1]));
    assert(s[at] == ':' && s[at + 1] == ':');
    assert forall|j: int| 0 <= j < at implies !((#[trigger] s[j]) == ':' && s[j + 1] == ':') by {
        assert(s[j] == a[j]);
        if j + 1 < at {
            assert(s[j + 1] == a[j + 1]);
        } else {
            assert(a[j] == a.last());
        }
    }
    lemma_double_colon_at(s, at);
    assert(s.take(at) =~= a);
    assert(s.skip(at + 2) =~= b);
}

/// The parts of what is counted as groups hold nothing but the characters of addresses.
proof fn lemma_counted_chars(s: Seq<char>)
    requires
        groups_with_tail(text::split_text(s, ':')) is Some,
    ensures
        forall|i: int|
            0 <= i < s.len() ==> is_hex_digit(#[trigger] s[i]) || s[i] == ':' || s[i] == '.',
{
    let parts = text::split_text(s, ':');
    text::lemma_split_chars(s, ':');
    assert forall|i: int| 0 <= i < s.len() implies is_hex_digit(#[trigger] s[i]) || s[i] == ':'
        || s[i] == '.' by {
        if s[i] != ':' {
            let k = choose|k: int| 0 <= k < parts.len() && (#[trigger] parts[k]).contains(s[i]);
            let j = choose|j: int| 0 <= j < parts[k].len() && parts[k][j] == s[i];
            if !is_group(parts[k]) {
                if k < parts.len() - 1 {
                    assert(parts.drop_last()[k] == parts[k]);
                }
                assert(is_ipv4(parts[k]));
                lemma_quad(parts[k]);
                assert(text::is_digit(parts[k][j]) || parts[k][j] == '.');
            } else {
                assert(is_hex_digit(parts[k][j]));
            }
        }
    }
}

/// An address is written in hexadecimal digits, colons and dots alone: a name with any other
/// character in it is that of a registered editor.
pub proof fn law_other_characters_are_in_no_address(s: Seq<char>, i: int)
    requires
        0 <= i < s.len(),
        !('0' <= s[i] <= '9'),
        !('a' <= s[i] <= 'f'),
        !('A' <= s[i] <= 'F'),
        s[i] != ':',
        s[i] != '.',
    ensures
        !is_ip_address(s),
{
    if is_ipv4(s) {
        lemma_quad(s);
        assert(text::is_digit(s[i]) || s[i] == '.');
    }
    if is_ipv6(s) {
        let at = first_double_colon(s);
        law_the_first_double_colon(s);
        if at < 0 {
            lemma_counted_chars(s);
            assert(is_hex_digit(s[i]) || s[i] == ':' || s[i] == '.');
        } else {
            let a = s.take(at);
            let b = s.skip(at + 2);
            if i < at {
                assert(a[i] == s[i]);
                assert(all_groups(text::split_text(a, ':')));
                lemma_counted_chars(a);
                assert(is_hex_digit(a[i]) || a[i] == ':' || a[i] == '.');
            } else if i >= at + 2 {
                assert(b[i - at - 2] == s[i]);
                lemma_counted_chars(b);
                assert(is_hex_digit(b[i - at - 2]) || b[i - at - 2] == ':' || b[i - at - 2] == '.');
            }
        }
    }
}

/// A name is an address of one version or of the other.
pub proof fn law_addresses_have_a_version(s: Seq<char>)
    ensures
        is_ip_address(s) <==> is_ipv4(s) || is_ipv6(s),
        is_ipv6(s) ==> s.contains(':'),
        is_ipv4(s) ==> !s.contains(':') && s.contains('.'),
{
    if is_ipv4(s) {
        lemma_quad(s);
        let parts = text::split_text(s, '.');
        text::law_pieces_make_up_the_text(s, '.');
        assert(s == parts[0].push('.') + text::joined(parts.skip(1), '.'));
        assert(s[parts[0].len() as int] == '.');
    }
    if is_ipv6(s) {
        law_the_first_double_colon(s);
        let at = first_double_colon(s);
        if at >= 0 {
            assert(s[at] == ':');
        } else if !s.contains(':') {
            text::lemma_split_whole(s, ':');
        }
    }
}

} // verus!
