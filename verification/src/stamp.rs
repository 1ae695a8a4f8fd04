//! Values with a stamp: how a decayed counter or a baseline is stored beside the moment it
//! was taken at.

use vstd::prelude::*;
use crate::text;

verus! {

/// A value as it is stored: the value, a colon, and the moment it was taken at.
pub open spec fn stamped(value: Seq<char>, at: int) -> Seq<char> {
    value.push(':') + text::decimal(at)
}

/// The value and the moment of what is stored.
pub open spec fn stamp_parts(stored: Seq<char>) -> Option<(Seq<char>, i64)> {
    match text::split_once_text(stored, ':') {
        Some((value, ts)) => match text::i64_value(ts) {
            Some(moment) => Some((value, moment)),
            None => None,
        },
        None => None,
    }
}

/// The stored form of a value.
pub fn stamp(value: &str, at: i64) -> (r: String)
    ensures
        r@ == stamped(value@, at as int),
        r@ == value@ + ":"@ + text::decimal(at as int),
{
    let ts: String = text::format_i64(at);
    let r: String = text::join3(value, ":", ts.as_str());
    proof {
        reveal_strlit(":");
        assert(r@ =~= stamped(value@, at as int));
    }
    r
}

/// Reads a stored value; anything malformed counts as absent.
pub fn read_stamp(stored: &str) -> (r: Option<(String, i64)>)
    ensures
        match r {
            Some((value, ts)) => stamp_parts(stored@) == Some((value@, ts)),
            None => stamp_parts(stored@) is None,
        },
{
    match text::split_once(stored, ':') {
        Some((value, ts)) => match text::parse_i64(ts.as_str()) {
            Some(moment) => Some((value, moment)),
            None => None,
        },
        None => None,
    }
}

/// A stored value is read back as it was written.
pub proof fn law_stamp_round_trip(value: Seq<char>, at: i64)
    requires
        !value.contains(':'),
    ensures
        stamp_parts(stamped(value, at as int)) == Some((value, at)),
{
    text::lemma_split_first(value, ':', text::decimal(at as int));
    text::law_decimal_round_trip(at);
}

/// A stored text is a value and a moment exactly where a colon parts it and what follows the
/// first one writes the moment in decimal; the value is what stands before that colon.
pub proof fn law_stamps_are_parted_by_the_first_colon(
    stored: Seq<char>,
    value: Seq<char>,
    moment: i64,
)
    ensures
        stamp_parts(stored) == Some((value, moment)) <==> exists|ts: Seq<char>|
            stored == #[trigger] (value.push(':') + ts) && !value.contains(':') && text::i64_value(
                ts,
            ) == Some(moment),
{
    text::law_the_first_separator_parts(stored, ':');
    if stamp_parts(stored) == Some((value, moment)) {
        let (_, ts) = text::split_once_text(stored, ':')->0;
        assert(stored == value.push(':') + ts);
    }
    if exists|ts: Seq<char>|
        stored == #[trigger] (value.push(':') + ts) && !value.contains(':') && text::i64_value(ts)
            == Some(moment) {
        let ts = choose|ts: Seq<char>|
            stored == #[trigger] (value.push(':') + ts) && !value.contains(':') && text::i64_value(
                ts,
            ) == Some(moment);
        text::lemma_split_first(value, ':', ts);
    }
}

} // verus!
