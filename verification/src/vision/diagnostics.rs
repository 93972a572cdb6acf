//! Names and records of the pictures that are kept for diagnosis.
use crate::item::ItemKind;
use crate::text::{
    chars_of, decimal, decimal_of, digit, digits_value, lemma_decimal_value, string_of,
};
use vstd::prelude::*;

verus! {

/// A number in decimal with at least three digits.
pub open spec fn padded(n: nat) -> Seq<char> {
    if n < 10 {
        "00"@ + decimal(n)
    } else if n < 100 {
        "0"@ + decimal(n)
    } else {
        decimal(n)
    }
}

fn padded_of(n: u64) -> (r: String)
    ensures
        r@ == padded(n as nat),
{
    let digits = decimal_of(n);
    if n < 10 {
        let mut out = "00".to_string();
        out.push_str(digits.as_str());
        out
    } else if n < 100 {
        let mut out = "0".to_string();
        out.push_str(digits.as_str());
        out
    } else {
        digits
    }
}

/// A character that may stand in a file name as it is.
pub open spec fn file_char(c: char) -> bool {
    ('a' <= c <= 'z') || ('A' <= c <= 'Z') || ('0' <= c <= '9') || c == '-'
}

/// An item's id as part of a file name.
pub open spec fn file_text(item: Seq<char>) -> Seq<char> {
    item.map_values(
        |c: char|
            if file_char(c) {
                c
            } else {
                '_'
            },
    )
}

/// An item's id as part of a file name.
pub fn item_file_name(item_id: &str) -> (r: String)
    ensures
        r@ == file_text(item_id@),
{
    let chars = chars_of(item_id);
    let mut out: Vec<char> = Vec::new();
    let mut i: usize = 0;
    while i < chars.len()
        invariant
            i <= chars@.len(),
            out@ == file_text(chars@).take(i as int),
        decreases chars@.len() - i,
    {
        let c = chars[i];
        let plain = ('a' <= c && c <= 'z') || ('A' <= c && c <= 'Z') || ('0' <= c && c <= '9') || c
            == '-';
        out.push(
            if plain {
                c
            } else {
                '_'
            },
        );
        assert(out@ =~= file_text(chars@).take(i + 1));
        i = i + 1;
    }
    assert(out@ =~= file_text(chars@));
    let r = string_of(&out, 0, out.len());
    assert(out@.subrange(0, out@.len() as int) =~= out@);
    r
}

/// The file name of a picture of the list as it was mapped.
pub fn list_map_file_name(timestamp_ms: u64, number: u64, item_kind: ItemKind) -> (r: String)
    ensures
        r@ == decimal(timestamp_ms as nat) + "-"@ + padded(number as nat) + "-"@
            + item_kind.label_text() + ".png"@,
{
    let mut out = decimal_of(timestamp_ms);
    out.push_str("-");
    out.push_str(padded_of(number).as_str());
    out.push_str("-");
    out.push_str(item_kind.label());
    out.push_str(".png");
    out
}

/// The file name of a picture of a slot that was not recognized. `score` is its error
/// in decimal.
pub fn fallback_file_name(
    timestamp_ms: u64,
    number: u64,
    item_id: &str,
    row: u32,
    col: u32,
    score: &str,
) -> (r: String)
    ensures
        r@ == decimal(timestamp_ms as nat) + "-"@ + padded(number as nat) + "-"@ + file_text(
            item_id@,
        ) + "-r"@ + decimal(row as nat) + "-c"@ + decimal(col as nat) + "-"@ + score@ + ".png"@,
{
    let mut out = decimal_of(timestamp_ms);
    out.push_str("-");
    out.push_str(padded_of(number).as_str());
    out.push_str("-");
    out.push_str(item_file_name(item_id).as_str());
    out.push_str("-r");
    out.push_str(decimal_of(row as u64).as_str());
    out.push_str("-c");
    out.push_str(decimal_of(col as u64).as_str());
    out.push_str("-");
    out.push_str(score);
    out.push_str(".png");
    out
}

/// Whether the comparison at a place of a ranking, counted from 0, is recorded as
/// accepted, and its rank, counted from 1.
pub fn comparison_rank(index: usize, accepted: bool) -> (r: (usize, bool))
    requires
        index < usize::MAX,
    ensures
        r.0 == index + 1,
        r.1 == (accepted && index == 0),
{
    (index + 1, accepted && index == 0)
}

/// A padded number has at least three digits and stands for the number.
pub proof fn lemma_padded(n: nat)
    ensures
        padded(n).len() >= 3,
        digits_value(padded(n)) == n,
        n >= 1000 ==> padded(n) == decimal(n),
{
    reveal_strlit("0");
    reveal_strlit("00");
    lemma_decimal_value(n);
    if n < 100 {
        let zeros = if n < 10 {
            "00"@
        } else {
            "0"@
        };
        assert("00"@.drop_last() =~= "0"@);
        assert("0"@.drop_last() =~= Seq::<char>::empty());
        assert(digits_value(Seq::<char>::empty()) == 0);
        assert(digits_value("0"@) == 0);
        assert(digits_value("00"@) == 0);
        lemma_leading_zeros(zeros, decimal(n));
        if n >= 10 {
            assert(decimal(n) == decimal(n / 10).push(digit(n % 10)));
            assert(decimal(n / 10) == seq![digit(n / 10)]);
        }
    } else {
        assert(decimal(n) == decimal(n / 10).push(digit(n % 10)));
        assert(decimal(n / 10) == decimal(n / 10 / 10).push(digit(n / 10 % 10)));
        lemma_decimal_value(n / 10 / 10);
    }
}

proof fn lemma_leading_zeros(zeros: Seq<char>, digits: Seq<char>)
    requires
        digits_value(zeros) == 0,
    ensures
        digits_value(zeros + digits) == digits_value(digits),
    decreases digits.len(),
{
    if digits.len() > 0 {
        lemma_leading_zeros(zeros, digits.drop_last());
        assert((zeros + digits).drop_last() =~= zeros + digits.drop_last());
    } else {
        assert(zeros + digits =~= zeros);
    }
}

/// In a file name an id keeps its letters, digits and hyphens, each in its place; every
/// other character becomes an underscore.
pub proof fn lemma_file_text(item: Seq<char>)
    ensures
        file_text(item).len() == item.len(),
        forall|i: int|
            #![trigger item[i]]
            0 <= i < item.len() ==> {
                let c = item[i];
                let plain = 'a' <= c <= 'z' || 'A' <= c <= 'Z' || '0' <= c <= '9' || c == '-';
                &&& plain ==> file_text(item)[i] == c
                &&& !plain ==> file_text(item)[i] == '_'
            },
{
}

} // verus!
