//! Text as sequences of characters: the operations on strings that the rest of
//! the library is specified with.
//!
//! Every function here works on the characters of a string, so its contract is
//! exact for all of Unicode.
use vstd::prelude::*;

verus! {

/// `String::push` appends one character.
pub assume_specification[ String::push ](s: &mut String, c: char)
    ensures
        final(s)@ == old(s)@.push(c),
;

/// `String::push_str` appends a string slice.
pub assume_specification[ String::push_str ](s: &mut String, other: &str)
    ensures
        final(s)@ == old(s)@ + other@,
;

/// The text that `str`'s `Debug` prints for a string with characters that may need
/// an escape.
pub uninterp spec fn debug_text(s: Seq<char>) -> Seq<char>;

/// A printable ASCII character other than the quotation mark and the backslash.
pub open spec fn needs_no_escape(c: char) -> bool {
    ' ' <= c && c <= '~' && c != '"' && c != '\\'
}

/// The string in quotation marks, with escapes where a character needs one.
pub open spec fn quoted_text(s: Seq<char>) -> Seq<char> {
    if forall|i: int| 0 <= i < s.len() ==> needs_no_escape(#[trigger] s[i]) {
        seq!['"'] + s + seq!['"']
    } else {
        debug_text(s)
    }
}

/// `format!` with `str`'s `Debug`: the string between quotation marks when none of
/// its characters needs an escape. Of other strings the text is named by
/// `debug_text`; that it depends on the string alone is all that is claimed.
#[verifier::external_body]
pub(crate) fn quoted(s: &str) -> (r: String)
    ensures
        r@ == (if forall|i: int| 0 <= i < s@.len() ==> needs_no_escape(#[trigger] s@[i]) {
            seq!['"'] + s@ + seq!['"']
        } else {
            debug_text(s@)
        }),
{
    format!("{:?}", s)
}

// ----- characters ------------------------------------------------------------

/// The characters with the Unicode property `White_Space`.
pub open spec fn white_space(c: char) -> bool {
    ||| '\u{9}' <= c <= '\u{d}'
    ||| c == ' '
    ||| c == '\u{85}'
    ||| c == '\u{a0}'
    ||| c == '\u{1680}'
    ||| '\u{2000}' <= c <= '\u{200a}'
    ||| c == '\u{2028}'
    ||| c == '\u{2029}'
    ||| c == '\u{202f}'
    ||| c == '\u{205f}'
    ||| c == '\u{3000}'
}

/// Whether `c` has the Unicode property `White_Space`.
pub fn is_white_space(c: char) -> (r: bool)
    ensures
        r == white_space(c),
{
    ('\u{9}' <= c && c <= '\u{d}') || c == ' ' || c == '\u{85}' || c == '\u{a0}' || c == '\u{1680}'
        || ('\u{2000}' <= c && c <= '\u{200a}') || c == '\u{2028}' || c == '\u{2029}' || c
        == '\u{202f}' || c == '\u{205f}' || c == '\u{3000}'
}

/// The control characters, Unicode category `Cc`.
pub open spec fn control(c: char) -> bool {
    c <= '\u{1f}' || '\u{7f}' <= c <= '\u{9f}'
}

/// Some character of `s` is a control character.
pub open spec fn has_control(s: Seq<char>) -> bool {
    exists|i: int| 0 <= i < s.len() && control(#[trigger] s[i])
}

/// Whether some character of `s` is a control character.
pub fn contains_control(s: &str) -> (r: bool)
    ensures
        r == has_control(s@),
{
    let chars = chars_of(s);
    let mut i: usize = 0;
    while i < chars.len()
        invariant
            i <= chars.len(),
            chars@ == s@,
            forall|k: int| 0 <= k < i ==> !control(#[trigger] s@[k]),
        decreases chars.len() - i,
    {
        let c = chars[i];
        if c <= '\u{1f}' || ('\u{7f}' <= c && c <= '\u{9f}') {
            assert(control(s@[i as int]));
            return true;
        }
        i = i + 1;
    }
    false
}

/// The ASCII capital letters become small letters; every other character stays.
pub open spec fn lower(c: char) -> char {
    if 'A' <= c <= 'Z' {
        ((c as u32) + 32) as char
    } else {
        c
    }
}

fn lower_char(c: char) -> (r: char)
    ensures
        r == lower(c),
{
    if 'A' <= c && c <= 'Z' {
        ((c as u8) + 32) as char
    } else {
        c
    }
}

// ----- strings and their characters -------------------------------------------

/// The characters of a string slice.
pub fn chars_of(s: &str) -> (r: Vec<char>)
    ensures
        r@ == s@,
{
    let mut out: Vec<char> = Vec::new();
    for c in it: s.chars()
        invariant
            out@ == s@.take(it.index() as int),
            it.seq() == s@,
    {
        out.push(c);
        assert(s@.take(it.index() + 1) == s@.take(it.index() as int).push(c));
    }
    assert(s@.take(s@.len() as int) == s@);
    out
}

/// The string made of the characters from `from` up to `to`.
pub fn string_of(chars: &Vec<char>, from: usize, to: usize) -> (r: String)
    requires
        from <= to <= chars.len(),
    ensures
        r@ == chars@.subrange(from as int, to as int),
{
    let mut out = String::new();
    let mut i: usize = from;
    while i < to
        invariant
            from <= i <= to <= chars.len(),
            out@ == chars@.subrange(from as int, i as int),
        decreases to - i,
    {
        out.push(chars[i]);
        assert(chars@.subrange(from as int, i + 1) == chars@.subrange(from as int, i as int).push(
            chars@[i as int],
        ));
        i = i + 1;
    }
    out
}

/// Whether two string slices hold the same characters.
pub fn same_text(a: &str, b: &str) -> (r: bool)
    ensures
        r == (a@ == b@),
{
    let x = chars_of(a);
    let y = chars_of(b);
    if x.len() != y.len() {
        return false;
    }
    let mut i: usize = 0;
    while i < x.len()
        invariant
            i <= x.len() == y.len(),
            x@ == a@,
            y@ == b@,
            x@.take(i as int) == y@.take(i as int),
        decreases x.len() - i,
    {
        if x[i] != y[i] {
            assert(a@[i as int] != b@[i as int]);
            return false;
        }
        assert(x@.take(i + 1) == x@.take(i as int).push(x@[i as int]));
        assert(y@.take(i + 1) == y@.take(i as int).push(y@[i as int]));
        i = i + 1;
    }
    assert(x@.take(x@.len() as int) == x@);
    assert(y@.take(y@.len() as int) == y@);
    true
}

/// The concatenation of two string slices.
pub fn joined(a: &str, b: &str) -> (r: String)
    ensures
        r@ == a@ + b@,
{
    let mut out = a.to_string();
    out.push_str(b);
    out
}

// ----- trimming -----------------------------------------------------------------

/// `s` without its leading white space.
pub open spec fn trim_start(s: Seq<char>) -> Seq<char>
    decreases s.len(),
{
    if s.len() > 0 && white_space(s[0]) {
        trim_start(s.drop_first())
    } else {
        s
    }
}

/// `s` without its trailing white space.
pub open spec fn trim_end(s: Seq<char>) -> Seq<char>
    decreases s.len(),
{
    if s.len() > 0 && white_space(s.last()) {
        trim_end(s.drop_last())
    } else {
        s
    }
}

/// `s` without its leading and trailing white space.
pub open spec fn trim(s: Seq<char>) -> Seq<char> {
    trim_end(trim_start(s))
}

/// The slice `s` with its surrounding white space removed.
pub fn trimmed(s: &str) -> (r: String)
    ensures
        r@ == trim(s@),
{
    let chars = chars_of(s);
    let mut from: usize = 0;
    let len: usize = chars.len();
    assert(s@.skip(0) == s@);
    while from < len && is_white_space(chars[from])
        invariant
            from <= len == chars.len(),
            chars@ == s@,
            trim_start(s@.skip(from as int)) == trim_start(s@),
        decreases len - from,
    {
        assert(s@.skip(from as int).drop_first() == s@.skip(from + 1));
        from = from + 1;
    }
    assert(trim_start(s@) == s@.skip(from as int)) by {
        if from < len {
            assert(s@.skip(from as int)[0] == chars@[from as int]);
        }
    }
    let to = trailing_cut(&chars, from);
    assert(s@.skip(from as int) == chars@.subrange(from as int, len as int));
    string_of(&chars, from, to)
}

/// The slice `s` with its trailing white space removed.
pub fn trimmed_end(s: &str) -> (r: String)
    ensures
        r@ == trim_end(s@),
{
    let chars = chars_of(s);
    let to = trailing_cut(&chars, 0);
    assert(chars@.subrange(0, chars@.len() as int) == s@);
    string_of(&chars, 0, to)
}

fn trailing_cut(chars: &Vec<char>, from: usize) -> (to: usize)
    requires
        from <= chars.len(),
    ensures
        from <= to <= chars.len(),
        chars@.subrange(from as int, to as int) == trim_end(
            chars@.subrange(from as int, chars@.len() as int),
        ),
{
    let ghost whole = chars@.subrange(from as int, chars@.len() as int);
    let mut to: usize = chars.len();
    while from < to && is_white_space(chars[to - 1])
        invariant
            from <= to <= chars.len(),
            trim_end(chars@.subrange(from as int, to as int)) == trim_end(whole),
        decreases to - from,
    {
        assert(chars@.subrange(from as int, to as int).drop_last() == chars@.subrange(
            from as int,
            to - 1,
        ));
        assert(chars@.subrange(from as int, to as int).last() == chars@[to - 1]);
        to = to - 1;
    }
    assert(trim_end(chars@.subrange(from as int, to as int)) == chars@.subrange(
        from as int,
        to as int,
    )) by {
        if from < to {
            assert(chars@.subrange(from as int, to as int).last() == chars@[to - 1]);
        }
    }
    to
}

/// Text that neither begins nor ends with white space is left alone by trimming.
pub proof fn lemma_trim_fixed(s: Seq<char>)
    requires
        s.len() > 0 ==> !white_space(s[0]) && !white_space(s.last()),
    ensures
        trim(s) == s,
{
}

// ----- letter case ----------------------------------------------------------------

/// `s` with its ASCII capital letters made small.
pub open spec fn ascii_lower(s: Seq<char>) -> Seq<char> {
    s.map_values(|c: char| lower(c))
}

/// The slice `s` with its ASCII capital letters made small.
pub fn ascii_lowered(s: &str) -> (r: String)
    ensures
        r@ == ascii_lower(s@),
{
    let chars = chars_of(s);
    let mut out = String::new();
    let mut i: usize = 0;
    while i < chars.len()
        invariant
            i <= chars.len(),
            chars@ == s@,
            out@ == ascii_lower(s@.take(i as int)),
        decreases chars.len() - i,
    {
        out.push(lower_char(chars[i]));
        assert(ascii_lower(s@.take(i + 1)) == ascii_lower(s@.take(i as int)).push(
            lower(s@[i as int]),
        ));
        i = i + 1;
    }
    assert(s@.take(s@.len() as int) == s@);
    out
}

// ----- prefixes and suffixes ---------------------------------------------------------

/// Whether `s` begins with `prefix`.
pub fn starts_with(s: &str, prefix: &str) -> (r: bool)
    ensures
        r == prefix@.is_prefix_of(s@),
{
    let x = chars_of(s);
    let p = chars_of(prefix);
    if p.len() > x.len() {
        return false;
    }
    let head = string_of(&x, 0, p.len());
    same_text(head.as_str(), prefix)
}

/// A text occurs in another.
pub open spec fn occurs_in(part: Seq<char>, s: Seq<char>) -> bool {
    exists|i: int| 0 <= i <= s.len() - part.len() && #[trigger] s.subrange(i, i + part.len()) == part
}

/// Whether `part` occurs in `s`.
pub fn contains_text(s: &str, part: &str) -> (r: bool)
    ensures
        r == occurs_in(part@, s@),
{
    let x = chars_of(s);
    let p = chars_of(part);
    let mut i: usize = 0;
    while i <= x.len() && p.len() <= x.len() - i
        invariant
            x@ == s@,
            p@ == part@,
            i <= x@.len() + 1,
            forall|k: int|
                0 <= k < i && k <= s@.len() - part@.len() ==> #[trigger] s@.subrange(
                    k,
                    k + part@.len(),
                ) != part@,
        decreases x@.len() + 1 - i,
    {
        let here = string_of(&x, i, i + p.len());
        if same_text(here.as_str(), part) {
            assert(s@.subrange(i as int, i + part@.len()) == part@);
            return true;
        }
        if i == x.len() {
            return false;
        }
        i = i + 1;
    }
    false
}

/// Whether `s` ends with `suffix`.
pub fn ends_with(s: &str, suffix: &str) -> (r: bool)
    ensures
        r == suffix@.is_suffix_of(s@),
{
    let x = chars_of(s);
    let p = chars_of(suffix);
    if p.len() > x.len() {
        return false;
    }
    let tail = string_of(&x, x.len() - p.len(), x.len());
    same_text(tail.as_str(), suffix)
}

// ----- splitting and joining -----------------------------------------------------------

/// The pieces of `s` between the occurrences of `separator`, in order. There is
/// always one piece more than there are separators.
pub open spec fn split(s: Seq<char>, separator: char) -> Seq<Seq<char>>
    decreases s.len(),
{
    if s.len() == 0 {
        seq![Seq::<char>::empty()]
    } else {
        let before = split(s.drop_last(), separator);
        if s.last() == separator {
            before.push(Seq::<char>::empty())
        } else {
            before.drop_last().push(before.last().push(s.last()))
        }
    }
}

/// The views of a sequence of strings.
pub open spec fn views(s: Seq<String>) -> Seq<Seq<char>> {
    s.map_values(|t: String| t@)
}

/// A copy of a list of texts.
pub fn copy_texts(list: &Vec<String>) -> (r: Vec<String>)
    ensures
        views(r@) == views(list@),
{
    let mut out: Vec<String> = Vec::new();
    let mut i: usize = 0;
    while i < list.len()
        invariant
            i <= list@.len(),
            views(out@) == views(list@).take(i as int),
        decreases list@.len() - i,
    {
        let ghost before = views(out@);
        out.push(list[i].clone());
        assert(views(out@) == before.push(list@[i as int]@));
        i = i + 1;
    }
    out
}

/// A split never comes out empty.
pub proof fn lemma_split_nonempty(s: Seq<char>, separator: char)
    ensures
        split(s, separator).len() >= 1,
    decreases s.len(),
{
    if s.len() > 0 {
        lemma_split_nonempty(s.drop_last(), separator);
    }
}

/// The pieces of the slice `s` between the occurrences of `separator`.
pub fn split_at_each(s: &str, separator: char) -> (r: Vec<String>)
    ensures
        views(r@) == split(s@, separator),
{
    let chars = chars_of(s);
    let mut out: Vec<String> = Vec::new();
    let mut start: usize = 0;
    let mut i: usize = 0;
    assert(s@.take(0) == Seq::<char>::empty());
    assert(s@.subrange(0, 0) == Seq::<char>::empty());
    assert(views(out@).push(s@.subrange(0, 0)) == split(s@.take(0), separator));
    while i < chars.len()
        invariant
            start <= i <= chars.len(),
            chars@ == s@,
            views(out@).push(s@.subrange(start as int, i as int)) == split(
                s@.take(i as int),
                separator,
            ),
        decreases chars.len() - i,
    {
        let ghost whole = s@.take(i + 1);
        assert(whole.drop_last() == s@.take(i as int));
        assert(whole.last() == s@[i as int]);
        if chars[i] == separator {
            let piece = string_of(&chars, start, i);
            let ghost before = views(out@);
            out.push(piece);
            assert(views(out@) == before.push(piece@));
            start = i + 1;
            assert(s@.subrange(start as int, i + 1) == Seq::<char>::empty());
        } else {
            let ghost before = split(s@.take(i as int), separator);
            assert(before.drop_last() == views(out@));
            assert(s@.subrange(start as int, i + 1) == s@.subrange(start as int, i as int).push(
                s@[i as int],
            ));
        }
        i = i + 1;
    }
    let piece = string_of(&chars, start, chars.len());
    let ghost before = views(out@);
    out.push(piece);
    assert(views(out@) == before.push(piece@));
    assert(s@.take(s@.len() as int) == s@);
    out
}

/// Splitting distributes over a separator: what stands before it and what
/// stands behind it are split on their own.
pub proof fn lemma_split_concat(a: Seq<char>, b: Seq<char>, separator: char)
    ensures
        split(a + seq![separator] + b, separator) == split(a, separator) + split(b, separator),
    decreases b.len(),
{
    let whole = a + seq![separator] + b;
    lemma_split_nonempty(a, separator);
    lemma_split_nonempty(b, separator);
    if b.len() == 0 {
        assert(whole.drop_last() == a);
        assert(split(whole, separator) == split(a, separator) + split(b, separator));
    } else {
        lemma_split_concat(a, b.drop_last(), separator);
        lemma_split_nonempty(b.drop_last(), separator);
        assert(whole.drop_last() == a + seq![separator] + b.drop_last());
        assert(whole.last() == b.last());
        let left = split(a, separator);
        let right = split(b.drop_last(), separator);
        if b.last() == separator {
            assert((left + right).push(Seq::<char>::empty()) == left + right.push(
                Seq::<char>::empty(),
            ));
        } else {
            assert((left + right).drop_last() == left + right.drop_last());
            assert((left + right).last() == right.last());
            assert((left + right.drop_last()).push(right.last().push(b.last())) == left
                + right.drop_last().push(right.last().push(b.last())));
        }
    }
}

/// Text without the separator is its own only piece.
pub proof fn lemma_split_single(s: Seq<char>, separator: char)
    requires
        !s.contains(separator),
    ensures
        split(s, separator) == seq![s],
    decreases s.len(),
{
    if s.len() > 0 {
        assert forall|i: int| 0 <= i < s.drop_last().len() implies s.drop_last()[i] != separator by {
            assert(s.contains(s[i]));
        }
        assert(s.contains(s.last()));
        lemma_split_single(s.drop_last(), separator);
        assert(split(s, separator) == seq![s.drop_last().push(s.last())]);
        assert(s.drop_last().push(s.last()) == s);
    } else {
        assert(s == Seq::<char>::empty());
    }
}

/// The parts one after another with `separator` between each two.
pub open spec fn join(parts: Seq<Seq<char>>, separator: Seq<char>) -> Seq<char>
    decreases parts.len(),
{
    if parts.len() == 0 {
        Seq::empty()
    } else if parts.len() == 1 {
        parts[0]
    } else {
        join(parts.drop_last(), separator) + separator + parts.last()
    }
}

/// The strings one after another with `separator` between each two.
pub fn join_all(parts: &Vec<String>, separator: &str) -> (r: String)
    ensures
        r@ == join(views(parts@), separator@),
{
    let mut out = String::new();
    let mut i: usize = 0;
    assert(views(parts@).take(0) == Seq::<Seq<char>>::empty());
    while i < parts.len()
        invariant
            i <= parts.len(),
            out@ == join(views(parts@).take(i as int), separator@),
        decreases parts.len() - i,
    {
        let ghost head = views(parts@).take(i as int);
        let ghost next = views(parts@).take(i + 1);
        assert(next.drop_last() == head);
        assert(next.last() == parts@[i as int]@);
        if i > 0 {
            out.push_str(separator);
        }
        out.push_str(parts[i].as_str());
        assert(i == 0 ==> out@ == parts@[0]@);
        i = i + 1;
    }
    assert(views(parts@).take(parts@.len() as int) == views(parts@));
    out
}

/// Splitting undoes joining when no part holds the separator.
pub proof fn lemma_split_join(parts: Seq<Seq<char>>, separator: char)
    requires
        parts.len() > 0,
        forall|i: int| 0 <= i < parts.len() ==> !(#[trigger] parts[i]).contains(separator),
    ensures
        split(join(parts, seq![separator]), separator) == parts,
    decreases parts.len(),
{
    if parts.len() == 1 {
        lemma_split_single(parts[0], separator);
        assert(parts == seq![parts[0]]);
    } else {
        assert forall|i: int| 0 <= i < parts.drop_last().len() implies !(
        #[trigger] parts.drop_last()[i]).contains(separator) by {
            assert(parts.drop_last()[i] == parts[i]);
        }
        lemma_split_join(parts.drop_last(), separator);
        lemma_split_concat(join(parts.drop_last(), seq![separator]), parts.last(), separator);
        lemma_split_single(parts.last(), separator);
        assert(parts == parts.drop_last() + seq![parts.last()]);
    }
}

/// The first line of `s`, without its surrounding white space.
pub open spec fn first_line_of(s: Seq<char>) -> Seq<char> {
    trim(split(s, '\n')[0])
}

/// The first line of the slice `s`, without its surrounding white space.
pub fn first_line(s: &str) -> (r: String)
    ensures
        r@ == first_line_of(s@),
{
    let lines = split_at_each(s, '\n');
    proof {
        lemma_split_nonempty(s@, '\n');
        assert(views(lines@)[0] == lines@[0]@);
    }
    trimmed(lines[0].as_str())
}

// ----- numbers ----------------------------------------------------------------------------

/// The decimal digit of `n`.
pub open spec fn digit(n: nat) -> char {
    (48 + n) as char
}

/// `n` in decimal, without leading zeros.
pub open spec fn decimal(n: nat) -> Seq<char>
    decreases n,
{
    if n < 10 {
        seq![digit(n)]
    } else {
        decimal(n / 10).push(digit(n % 10))
    }
}

/// The number `n` in decimal.
pub fn decimal_of(n: u64) -> (r: String)
    ensures
        r@ == decimal(n as nat),
{
    wide_decimal(n as u128)
}

/// The number of the thing with the index `index`, in decimal: indices count
/// from 0, numbers from 1.
pub fn ordinal_of(index: usize) -> (r: String)
    ensures
        r@ == decimal((index + 1) as nat),
{
    wide_decimal(index as u128 + 1)
}

fn wide_decimal(n: u128) -> (r: String)
    ensures
        r@ == decimal(n as nat),
    decreases n,
{
    let mut out = if n < 10 {
        String::new()
    } else {
        wide_decimal(n / 10)
    };
    let d: u8 = 48 + (n % 10) as u8;
    out.push(d as char);
    out
}

// ----- order -----------------------------------------------------------------------------------

/// Lexicographic order by character, which is the order of the encoded bytes.
pub open spec fn text_before(a: Seq<char>, b: Seq<char>) -> bool
    decreases a.len(),
{
    if b.len() == 0 {
        false
    } else if a.len() == 0 {
        true
    } else {
        a[0] < b[0] || (a[0] == b[0] && text_before(a.drop_first(), b.drop_first()))
    }
}

/// Whether the slice `a` comes before the slice `b`.
pub fn comes_before(a: &str, b: &str) -> (r: bool)
    ensures
        r == text_before(a@, b@),
{
    let x = chars_of(a);
    let y = chars_of(b);
    let mut i: usize = 0;
    assert(a@.skip(0) == a@);
    assert(b@.skip(0) == b@);
    while i < x.len() && i < y.len() && x[i] == y[i]
        invariant
            i <= x.len(),
            i <= y.len(),
            x@ == a@,
            y@ == b@,
            text_before(a@.skip(i as int), b@.skip(i as int)) == text_before(a@, b@),
        decreases x.len() - i,
    {
        assert(a@.skip(i as int).drop_first() == a@.skip(i + 1));
        assert(b@.skip(i as int).drop_first() == b@.skip(i + 1));
        i = i + 1;
    }
    if i >= y.len() {
        false
    } else if i >= x.len() {
        true
    } else {
        x[i] < y[i]
    }
}

/// No text comes before itself.
pub proof fn lemma_before_irreflexive(a: Seq<char>)
    ensures
        !text_before(a, a),
    decreases a.len(),
{
    if a.len() > 0 {
        lemma_before_irreflexive(a.drop_first());
    }
}

/// The order is transitive.
pub proof fn lemma_before_transitive(a: Seq<char>, b: Seq<char>, c: Seq<char>)
    requires
        text_before(a, b),
        text_before(b, c),
    ensures
        text_before(a, c),
    decreases a.len(),
{
    if a.len() > 0 && a[0] == b[0] && b[0] == c[0] {
        lemma_before_transitive(a.drop_first(), b.drop_first(), c.drop_first());
    }
}

/// Of two different texts one comes before the other.
pub proof fn lemma_before_total(a: Seq<char>, b: Seq<char>)
    ensures
        a == b || text_before(a, b) || text_before(b, a),
    decreases a.len(),
{
    if a.len() > 0 && b.len() > 0 && a[0] == b[0] {
        lemma_before_total(a.drop_first(), b.drop_first());
        if a.drop_first() == b.drop_first() {
            assert(a == seq![a[0]] + a.drop_first());
            assert(b == seq![b[0]] + b.drop_first());
        }
    } else if a.len() == 0 && b.len() == 0 {
        assert(a == b);
    }
}

// ----- laws ------------------------------------------------------------------------------

proof fn lemma_start_cut(s: Seq<char>) -> (from: int)
    ensures
        0 <= from <= s.len(),
        trim_start(s) == s.subrange(from, s.len() as int),
        forall|i: int| 0 <= i < from ==> white_space(#[trigger] s[i]),
        from < s.len() ==> !white_space(s[from]),
    decreases s.len(),
{
    if s.len() > 0 && white_space(s[0]) {
        let rest = s.drop_first();
        let from = lemma_start_cut(rest);
        assert(rest.subrange(from, rest.len() as int) =~= s.subrange(from + 1, s.len() as int));
        assert forall|i: int| 0 <= i < from + 1 implies white_space(#[trigger] s[i]) by {
            if i > 0 {
                assert(rest[i - 1] == s[i]);
            }
        }
        from + 1
    } else {
        assert(s.subrange(0, s.len() as int) =~= s);
        0
    }
}

proof fn lemma_end_cut(s: Seq<char>) -> (to: int)
    ensures
        0 <= to <= s.len(),
        trim_end(s) == s.subrange(0, to),
        forall|i: int| to <= i < s.len() ==> white_space(#[trigger] s[i]),
        to > 0 ==> !white_space(s[to - 1]),
    decreases s.len(),
{
    if s.len() > 0 && white_space(s.last()) {
        let rest = s.drop_last();
        let to = lemma_end_cut(rest);
        assert(rest.subrange(0, to) =~= s.subrange(0, to));
        assert forall|i: int| to <= i < s.len() implies white_space(#[trigger] s[i]) by {
            if i < rest.len() {
                assert(rest[i] == s[i]);
            }
        }
        to
    } else {
        assert(s.subrange(0, s.len() as int) =~= s);
        s.len() as int
    }
}

/// Trimming cuts a piece out of a text: all before it and all behind it is white space, and
/// it neither begins nor ends with white space.
pub proof fn lemma_trimmed_piece(s: Seq<char>) -> (cut: (int, int))
    ensures
        0 <= cut.0 <= cut.1 <= s.len(),
        trim(s) == s.subrange(cut.0, cut.1),
        forall|i: int| 0 <= i < cut.0 ==> white_space(#[trigger] s[i]),
        forall|i: int| cut.1 <= i < s.len() ==> white_space(#[trigger] s[i]),
        cut.0 < cut.1 ==> !white_space(s[cut.0]) && !white_space(s[cut.1 - 1]),
{
    let from = lemma_start_cut(s);
    let rest = trim_start(s);
    let to = lemma_end_cut(rest);
    assert(rest.subrange(0, to) =~= s.subrange(from, from + to));
    assert forall|i: int| from + to <= i < s.len() implies white_space(#[trigger] s[i]) by {
        assert(rest[i - from] == s[i]);
    }
    if to > 0 {
        assert(rest[0] == s[from]);
        assert(rest[to - 1] == s[from + to - 1]);
    }
    (from, from + to)
}

/// Making letters small changes the capital letters of the alphabet, each into its own small
/// letter, and nothing else.
pub proof fn lemma_small_letters(s: Seq<char>)
    ensures
        ascii_lower(s).len() == s.len(),
        forall|i: int|
            #![trigger s[i]]
            0 <= i < s.len() ==> {
                &&& 'A' <= s[i] <= 'Z' ==> ascii_lower(s)[i] as int == s[i] as int + 32
                &&& !('A' <= s[i] <= 'Z') ==> ascii_lower(s)[i] == s[i]
            },
{
}

/// The number that a row of decimal digits stands for.
pub open spec fn digits_value(digits: Seq<char>) -> int
    decreases digits.len(),
{
    if digits.len() == 0 {
        0
    } else {
        10 * digits_value(digits.drop_last()) + (digits.last() as int - '0' as int)
    }
}

/// A number in decimal is a row of digits that stands for the number, without a leading
/// zero unless it is zero.
pub proof fn lemma_decimal_value(n: nat)
    ensures
        decimal(n).len() >= 1,
        forall|i: int| 0 <= i < decimal(n).len() ==> '0' <= #[trigger] decimal(n)[i] <= '9',
        digits_value(decimal(n)) == n,
        n > 0 ==> decimal(n)[0] != '0',
    decreases n,
{
    if n < 10 {
        assert(decimal(n) =~= seq![digit(n)]);
        assert(decimal(n).drop_last() =~= Seq::<char>::empty());
        assert(digits_value(Seq::<char>::empty()) == 0);
    } else {
        lemma_decimal_value(n / 10);
        let before = decimal(n / 10);
        assert(decimal(n).drop_last() =~= before);
        assert forall|i: int| 0 <= i < decimal(n).len() implies '0' <= #[trigger] decimal(n)[i]
            <= '9' by {
            if i < before.len() {
                assert(decimal(n)[i] == before[i]);
            }
        }
        assert(decimal(n)[0] == before[0]);
    }
}

/// Two texts are in order when the first ends where they begin to differ, or has the smaller
/// character there.
#[verifier::spinoff_prover]
#[verifier::rlimit(30)]
pub proof fn lemma_text_order(a: Seq<char>, b: Seq<char>)
    ensures
        text_before(a, b) <==> exists|k: int|
            #![trigger a.take(k)]
            {
                &&& 0 <= k <= a.len()
                &&& k < b.len()
                &&& a.take(k) == b.take(k)
                &&& k == a.len() || a[k] < b[k]
            },
    decreases a.len(),
{
    if b.len() == 0 {
    } else if a.len() == 0 {
        assert(a.take(0) =~= b.take(0));
    } else {
        let x = a.drop_first();
        let y = b.drop_first();
        lemma_text_order(x, y);
        if text_before(a, b) {
            if a[0] < b[0] {
                assert(a.take(0) =~= b.take(0));
            } else {
                let k = choose|k: int|
                    #![trigger x.take(k)]
                    {
                        &&& 0 <= k <= x.len()
                        &&& k < y.len()
                        &&& x.take(k) == y.take(k)
                        &&& k == x.len() || x[k] < y[k]
                    };
                assert(a.take(k + 1) =~= seq![a[0]] + x.take(k));
                assert(b.take(k + 1) =~= seq![b[0]] + y.take(k));
                assert(a.take(k + 1) == b.take(k + 1));
            }
        }
        if exists|k: int|
            #![trigger a.take(k)]
            {
                &&& 0 <= k <= a.len()
                &&& k < b.len()
                &&& a.take(k) == b.take(k)
                &&& k == a.len() || a[k] < b[k]
            } {
            let k = choose|k: int|
                #![trigger a.take(k)]
                {
                    &&& 0 <= k <= a.len()
                    &&& k < b.len()
                    &&& a.take(k) == b.take(k)
                    &&& k == a.len() || a[k] < b[k]
                };
            if k > 0 {
                assert(a[0] == a.take(k)[0]);
                assert(b[0] == b.take(k)[0]);
                assert(x.take(k - 1) =~= a.take(k).drop_first());
                assert(y.take(k - 1) =~= b.take(k).drop_first());
                assert(x.take(k - 1) == y.take(k - 1));
            }
        }
    }
}

/// The pieces of a text hold no separator, and joined by the separator they are the text.
#[verifier::spinoff_prover]
#[verifier::rlimit(30)]
pub proof fn lemma_split_pieces(s: Seq<char>, separator: char)
    ensures
        forall|i: int|
            0 <= i < split(s, separator).len() ==> !(#[trigger] split(s, separator)[i]).contains(
                separator,
            ),
        join(split(s, separator), seq![separator]) == s,
        split(s, separator).len() >= 1,
    decreases s.len(),
{
    let pieces = split(s, separator);
    if s.len() == 0 {
        assert(join(pieces, seq![separator]) =~= s);
    } else {
        let rest = s.drop_last();
        lemma_split_pieces(rest, separator);
        let before = split(rest, separator);
        let last: int = before.len() - 1;
        if s.last() == separator {
            assert(pieces.drop_last() =~= before);
            assert forall|i: int| 0 <= i < pieces.len() implies !(#[trigger] pieces[i]).contains(
                separator,
            ) by {
                if i < before.len() {
                    assert(pieces[i] == before[i]);
                }
            }
            assert(join(pieces, seq![separator]) =~= rest + seq![separator]);
            assert(s =~= rest + seq![separator]);
        } else {
            let grown = before.last().push(s.last());
            assert(pieces.drop_last() =~= before.drop_last());
            assert forall|i: int| 0 <= i < pieces.len() implies !(#[trigger] pieces[i]).contains(
                separator,
            ) by {
                if i < last {
                    assert(pieces[i] == before[i]);
                } else {
                    assert(!before[last].contains(separator));
                    assert forall|k: int| 0 <= k < grown.len() implies grown[k] != separator by {
                        if k < before[last].len() {
                            assert(before[last].contains(before[last][k]));
                        }
                    }
                }
            }
            if before.len() == 1 {
                assert(join(before, seq![separator]) == before[0]);
                assert(pieces =~= seq![grown]);
            } else {
                assert(join(pieces, seq![separator]) =~= join(
                    before.drop_last(),
                    seq![separator],
                ) + seq![separator] + grown);
            }
            assert(join(pieces, seq![separator]) =~= join(before, seq![separator]).push(s.last()));
            assert(s =~= rest.push(s.last()));
        }
    }
}

/// The white space, the control characters, and nothing else, by their code points.
pub proof fn lemma_character_classes(c: char)
    ensures
        white_space(c) <==> 9 <= c as u32 <= 13 || c as u32 == 32 || c as u32 == 0x85 || c as u32
            == 0xa0 || c as u32 == 0x1680 || 0x2000 <= c as u32 <= 0x200a || c as u32 == 0x2028
            || c as u32 == 0x2029 || c as u32 == 0x202f || c as u32 == 0x205f || c as u32
            == 0x3000,
        control(c) <==> c as u32 <= 31 || 127 <= c as u32 <= 159,
{
}

/// The parts, each with the separator behind it.
pub open spec fn each_followed(parts: Seq<Seq<char>>, separator: Seq<char>) -> Seq<char>
    decreases parts.len(),
{
    if parts.len() == 0 {
        Seq::empty()
    } else {
        each_followed(parts.drop_last(), separator) + parts.last() + separator
    }
}

/// Joined parts are the parts but the last, each with the separator behind it, and the last.
pub proof fn lemma_join_push(parts: Seq<Seq<char>>, last: Seq<char>, separator: Seq<char>)
    ensures
        join(parts.push(last), separator) == each_followed(parts, separator) + last,
    decreases parts.len(),
{
    assert(parts.push(last).drop_last() =~= parts);
    if parts.len() == 0 {
        assert(each_followed(parts, separator) + last =~= last);
    } else {
        let rest = parts.drop_last();
        lemma_join_push(rest, parts.last(), separator);
        assert(rest.push(parts.last()) =~= parts);
        assert(join(parts.push(last), separator) =~= each_followed(parts, separator) + last);
    }
}

/// Putting the separator behind each part goes part by part.
pub proof fn lemma_each_followed_concat(
    a: Seq<Seq<char>>,
    b: Seq<Seq<char>>,
    separator: Seq<char>,
)
    ensures
        each_followed(a + b, separator) == each_followed(a, separator) + each_followed(
            b,
            separator,
        ),
        forall|part: Seq<char>| #[trigger]
            each_followed(seq![part], separator) == part + separator,
        each_followed(Seq::<Seq<char>>::empty(), separator) == Seq::<char>::empty(),
    decreases b.len(),
{
    if b.len() == 0 {
        assert(a + b =~= a);
        assert(each_followed(a, separator) + each_followed(b, separator) =~= each_followed(
            a,
            separator,
        ));
    } else {
        lemma_each_followed_concat(a, b.drop_last(), separator);
        assert((a + b).drop_last() =~= a + b.drop_last());
        assert(each_followed(a + b, separator) =~= each_followed(a, separator) + each_followed(
            b,
            separator,
        ));
    }
    assert forall|part: Seq<char>| #[trigger]
        each_followed(seq![part], separator) == part + separator by {
        assert(seq![part].drop_last() =~= Seq::<Seq<char>>::empty());
        assert(each_followed(Seq::<Seq<char>>::empty(), separator) =~= Seq::<char>::empty());
        assert(seq![part].last() == part);
        assert(each_followed(seq![part], separator) =~= part + separator);
    }
}

/// The first line is what stands before the first line feed, or the whole text where there is
/// none, without white space around it.
pub proof fn lemma_first_line(line: Seq<char>, rest: Seq<char>)
    requires
        !line.contains('\n'),
    ensures
        first_line_of(line) == trim(line),
        first_line_of(line + seq!['\n'] + rest) == trim(line),
{
    lemma_split_single(line, '\n');
    lemma_split_concat(line, rest, '\n');
    lemma_split_nonempty(rest, '\n');
}

} // verus!
