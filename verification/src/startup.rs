//! What is told to the user when the tool starts or has to stop.
use crate::text::{ascii_lower, ascii_lowered, chars_of, joined, same_text, string_of};
use vstd::prelude::*;

verus! {

/// A text in which every line feed has a carriage return before it, whether or not it
/// had one.
pub open spec fn windows_lines(s: Seq<char>) -> Seq<char>
    decreases s.len(),
{
    if s.len() == 0 {
        Seq::empty()
    } else if s.last() != '\n' {
        windows_lines(s.drop_last()).push(s.last())
    } else if s.len() >= 2 && s[s.len() - 2] == '\r' {
        windows_lines(s.take(s.len() - 2)).push('\r').push('\n')
    } else {
        windows_lines(s.drop_last()).push('\r').push('\n')
    }
}

/// Gives every line feed a carriage return.
pub fn with_windows_lines(s: &str) -> (r: String)
    ensures
        r@ == windows_lines(s@),
{
    let chars = chars_of(s);
    let mut out: Vec<char> = Vec::new();
    let mut i: usize = 0;
    assert(chars@.take(0) =~= Seq::<char>::empty());
    while i < chars.len()
        invariant
            i <= chars@.len(),
            out@ == windows_lines(chars@.take(i as int)),
        decreases chars@.len() - i,
    {
        let ghost here = chars@.take(i + 1);
        assert(here.drop_last() == chars@.take(i as int));
        assert(here.last() == chars@[i as int]);
        let c = chars[i];
        if c != '\n' {
            out.push(c);
        } else if i > 0 && chars[i - 1] == '\r' {
            assert(here[i - 1] == '\r');
            let ghost before = chars@.take(i as int);
            assert(before.last() == '\r');
            assert(before.drop_last() =~= here.take(here.len() - 2));
            assert(out@ == windows_lines(before.drop_last()).push('\r'));
            out.push('\n');
        } else {
            assert(i > 0 ==> here[i - 1] == chars@[i - 1]);
            out.push('\r');
            out.push('\n');
        }
        i = i + 1;
    }
    assert(chars@.take(chars@.len() as int) =~= chars@);
    let r = string_of(&out, 0, out.len());
    assert(out@.subrange(0, out@.len() as int) =~= out@);
    r
}

/// What is told when the tool cannot go on.
pub open spec fn fatal_words(error: Seq<char>, log_path: Option<Seq<char>>) -> Seq<char> {
    "Xilous Stratagems Manager could not start or encountered a fatal error.\r\n\r\n"@
        + windows_lines(error) + match log_path {
        Some(path) => "\r\n\r\nSee "@ + path + " for more information if the log was created."@,
        None => Seq::empty(),
    }
}

/// What is told when the tool cannot go on. `log_path` is where the log is, if known.
pub fn fatal_message(error: &str, log_path: Option<&str>) -> (r: String)
    ensures
        r@ == fatal_words(
            error@,
            match log_path {
                Some(path) => Some(path@),
                None => None,
            },
        ),
{
    let mut out = joined(
        "Xilous Stratagems Manager could not start or encountered a fatal error.\r\n\r\n",
        with_windows_lines(error).as_str(),
    );
    let ghost before = out@;
    assert(before =~= before + Seq::<char>::empty());
    if let Some(path) = log_path {
        out.push_str("\r\n\r\nSee ");
        out.push_str(path);
        out.push_str(" for more information if the log was created.");
        assert(out@ =~= before + ("\r\n\r\nSee "@ + path@
            + " for more information if the log was created."@));
    }
    out
}

/// What is told when the configuration was replaced.
pub fn config_reset_message(presets_path: &str, config_path: &str) -> (r: String)
    ensures
        r@
            == "The configuration file was reset for this version.\r\n\r\nSaved presets in\r\n"@
            + presets_path@
            + "\r\nwere not changed.\r\n\r\nIf you previously customized the settings, configure them again in the window or in\r\n"@
            + config_path@,
{
    let mut out = joined(
        "The configuration file was reset for this version.\r\n\r\nSaved presets in\r\n",
        presets_path,
    );
    out.push_str(
        "\r\nwere not changed.\r\n\r\nIf you previously customized the settings, configure them again in the window or in\r\n",
    );
    out.push_str(config_path);
    out
}

/// What is told when presets of an older format were put aside.
pub fn preset_format_message(backup_path: &str) -> (r: String)
    ensures
        r@
            == "The preset format changed in this version.\r\n\r\nPresets created by an earlier version cannot be used and must be recreated in game.\r\n\r\nThe old preset file was backed up to:\r\n"@
            + backup_path@ + "\r\n\r\nYour configuration was not changed."@,
{
    let mut out = joined(
        "The preset format changed in this version.\r\n\r\nPresets created by an earlier version cannot be used and must be recreated in game.\r\n\r\nThe old preset file was backed up to:\r\n",
        backup_path,
    );
    out.push_str("\r\n\r\nYour configuration was not changed.");
    out
}

/// Whether a file of the icon directory is an icon, by its extension.
pub fn is_icon_extension(extension: &str) -> (r: bool)
    ensures
        r == (ascii_lower(extension@) == "svg"@ || ascii_lower(extension@) == "png"@),
{
    let lowered = ascii_lowered(extension);
    same_text(lowered.as_str(), "svg") || same_text(lowered.as_str(), "png")
}

// ----- UTF-16 --------------------------------------------------------------------------

/// The code units of a character.
pub open spec fn char_units(c: char) -> Seq<u16> {
    if (c as u32) < 0x10000 {
        seq![(c as u32) as u16]
    } else {
        let rest = (c as u32 - 0x10000) as int;
        seq![(0xd800 + rest / 0x400) as u16, (0xdc00 + rest % 0x400) as u16]
    }
}

/// The code units of a text.
pub open spec fn text_units(s: Seq<char>) -> Seq<u16>
    decreases s.len(),
{
    if s.len() == 0 {
        Seq::empty()
    } else {
        text_units(s.drop_last()) + char_units(s.last())
    }
}

/// A text as UTF-16 code units that end with a zero.
pub fn wide_null(value: &str) -> (r: Vec<u16>)
    ensures
        r@ == text_units(value@).push(0),
{
    let chars = chars_of(value);
    let mut out: Vec<u16> = Vec::new();
    let mut i: usize = 0;
    assert(chars@.take(0) =~= Seq::<char>::empty());
    while i < chars.len()
        invariant
            i <= chars@.len(),
            out@ == text_units(chars@.take(i as int)),
        decreases chars@.len() - i,
    {
        assert(chars@.take(i + 1).drop_last() == chars@.take(i as int));
        assert(chars@.take(i + 1).last() == chars@[i as int]);
        let code: u32 = chars[i] as u32;
        let ghost before = out@;
        if code < 0x10000 {
            out.push(code as u16);
            assert(out@ =~= before + char_units(chars@[i as int]));
        } else {
            let rest: u32 = code - 0x10000;
            out.push((0xd800 + rest / 0x400) as u16);
            out.push((0xdc00 + rest % 0x400) as u16);
            assert(out@ =~= before + char_units(chars@[i as int]));
        }
        i = i + 1;
    }
    assert(chars@.take(chars@.len() as int) =~= chars@);
    out.push(0);
    out
}

// ----- laws ------------------------------------------------------------------------

/// The text without its carriage returns.
pub open spec fn without_returns(s: Seq<char>) -> Seq<char> {
    s.filter(|c: char| c != '\r')
}

proof fn lemma_without_returns_push(s: Seq<char>, c: char)
    ensures
        without_returns(s.push(c)) == (if c != '\r' {
            without_returns(s).push(c)
        } else {
            without_returns(s)
        }),
{
    reveal(Seq::filter);
    assert(s.push(c).drop_last() =~= s);
}

/// Each line feed gets a carriage return of its own, none is doubled, and nothing but
/// carriage returns is put in or left out. A text in which every line feed has one stays.
#[verifier::spinoff_prover]
#[verifier::rlimit(30)]
pub proof fn lemma_windows_lines(s: Seq<char>)
    ensures
        forall|i: int|
            0 <= i < windows_lines(s).len() && #[trigger] windows_lines(s)[i] == '\n' ==> i > 0
                && windows_lines(s)[i - 1] == '\r',
        without_returns(windows_lines(s)) == without_returns(s),
        (forall|i: int|
            0 <= i < s.len() && #[trigger] s[i] == '\n' ==> i > 0 && s[i - 1] == '\r')
            ==> windows_lines(s) == s,
    decreases s.len(),
{
    if s.len() > 0 {
        let out = windows_lines(s);
        if s.last() != '\n' {
            let rest = s.drop_last();
            lemma_windows_lines(rest);
            let before = windows_lines(rest);
            assert(rest.push(s.last()) =~= s);
            lemma_without_returns_push(before, s.last());
            lemma_without_returns_push(rest, s.last());
            assert forall|i: int| 0 <= i < out.len() && #[trigger] out[i] == '\n' implies i > 0
                && out[i - 1] == '\r' by {
                assert(out[i] == before[i]);
                assert(out[i - 1] == before[i - 1]);
            }
            if forall|i: int|
                0 <= i < s.len() && #[trigger] s[i] == '\n' ==> i > 0 && s[i - 1] == '\r' {
                assert forall|i: int| 0 <= i < rest.len() && #[trigger] rest[i] == '\n' implies i
                    > 0 && rest[i - 1] == '\r' by {
                    assert(s[i] == '\n');
                }
                assert(out =~= s);
            }
        } else {
            assert(s[s.len() - 1] == '\n');
            let kept = s.len() >= 2 && s[s.len() - 2] == '\r';
            let rest = if kept {
                s.take(s.len() - 2)
            } else {
                s.drop_last()
            };
            lemma_windows_lines(rest);
            let before = windows_lines(rest);
            lemma_without_returns_push(before, '\r');
            lemma_without_returns_push(before.push('\r'), '\n');
            if kept {
                lemma_without_returns_push(rest, '\r');
                lemma_without_returns_push(rest.push('\r'), '\n');
                assert(rest.push('\r').push('\n') =~= s);
            } else {
                lemma_without_returns_push(rest, '\n');
                assert(rest.push('\n') =~= s);
            }
            if forall|i: int|
                0 <= i < s.len() && #[trigger] s[i] == '\n' ==> i > 0 && s[i - 1] == '\r' {
                assert(s[s.len() - 1] == '\n');
                assert(kept);
                assert forall|i: int| 0 <= i < rest.len() && #[trigger] rest[i] == '\n' implies i
                    > 0 && rest[i - 1] == '\r' by {
                    assert(s[i] == '\n');
                }
                assert(out =~= s);
            }
            let n = before.len() as int;
            assert forall|i: int| 0 <= i < out.len() && #[trigger] out[i] == '\n' implies i > 0
                && out[i - 1] == '\r' by {
                if i < n {
                    assert(out[i] == before[i]);
                    assert(out[i - 1] == before[i - 1]);
                }
            }
        }
    }
}

/// A character of the basic plane is one code unit, itself. Any other is a high and a low
/// surrogate, from which it is made up again.
pub proof fn lemma_char_units(c: char)
    ensures
        (c as u32) < 0x10000 ==> char_units(c).len() == 1 && char_units(c)[0] == c as u32,
        (c as u32) >= 0x10000 ==> {
            &&& char_units(c).len() == 2
            &&& 0xd800 <= char_units(c)[0] < 0xdc00
            &&& 0xdc00 <= char_units(c)[1] < 0xe000
            &&& 0x10000 + (char_units(c)[0] - 0xd800) * 0x400 + (char_units(c)[1] - 0xdc00)
                == c as u32
        },
{
}

/// The code units of a text are those of its characters, one after the other.
pub proof fn lemma_text_units(a: Seq<char>, b: Seq<char>)
    ensures
        text_units(a + b) == text_units(a) + text_units(b),
        forall|c: char| text_units(seq![c]) == #[trigger] char_units(c),
    decreases b.len(),
{
    if b.len() > 0 {
        lemma_text_units(a, b.drop_last());
        assert((a + b).drop_last() =~= a + b.drop_last());
        assert(text_units(a + b) =~= text_units(a) + text_units(b));
    } else {
        assert(a + b =~= a);
        assert(text_units(a) + text_units(b) =~= text_units(a));
    }
    assert forall|c: char| text_units(seq![c]) == #[trigger] char_units(c) by {
        assert(seq![c].drop_last() =~= Seq::<char>::empty());
        assert(text_units(Seq::<char>::empty()) =~= Seq::<u16>::empty());
        assert(text_units(seq![c]) =~= char_units(c));
    }
}

} // verus!
