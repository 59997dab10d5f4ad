//! What a typed log means: the text it leaves behind, read from left to right.

use vstd::prelude::*;

verus! {

/// The byte that stands for a backspace.
pub const BACKSPACE: u8 = 0;

/// The byte that stands for a caps-lock toggle.
pub const CAPS_TOGGLE: u8 = 9;

/// Whether a byte is an ordinary character rather than one of the two markers.
pub open spec fn is_printable(b: u8) -> bool {
    b != BACKSPACE && b != CAPS_TOGGLE
}

/// The other case of an ASCII letter; every other byte is its own other case.
pub open spec fn flipped(c: u8) -> u8 {
    if 0x61 <= c <= 0x7a {
        (c - 0x20) as u8
    } else if 0x41 <= c <= 0x5a {
        (c + 0x20) as u8
    } else {
        c
    }
}

/// The character that a key leaves on the screen: its other case while caps
/// lock is on, itself otherwise.
pub open spec fn shown(c: u8, caps: bool) -> u8 {
    if caps {
        flipped(c)
    } else {
        c
    }
}

/// Whether caps lock is on after the whole log has been typed. It is off
/// before the first byte and every toggle marker switches it.
pub open spec fn caps_on(log: Seq<u8>) -> bool
    decreases log.len(),
{
    if log.len() == 0 {
        false
    } else {
        caps_on(log.drop_last()) != (log.last() == CAPS_TOGGLE)
    }
}

/// The text without its last `k` characters, or no text where it has fewer.
pub open spec fn without_last(text: Seq<u8>, k: nat) -> Seq<u8> {
    if k >= text.len() {
        Seq::empty()
    } else {
        text.take(text.len() - k)
    }
}

/// The text on the screen after the whole log has been typed. A backspace
/// removes the last character that is still there, if any; a toggle leaves the
/// text alone; any other byte is appended in the case that caps lock gives it.
pub open spec fn rendered(log: Seq<u8>) -> Seq<u8>
    decreases log.len(),
{
    if log.len() == 0 {
        Seq::empty()
    } else {
        let before = log.drop_last();
        let b = log.last();
        if b == BACKSPACE {
            without_last(rendered(before), 1)
        } else if b == CAPS_TOGGLE {
            rendered(before)
        } else {
            rendered(before).push(shown(b, caps_on(before)))
        }
    }
}

/// Two logs are the same when they leave the same text.
pub open spec fn same_text(a: Seq<u8>, b: Seq<u8>) -> bool {
    rendered(a) == rendered(b)
}

/// Gives the other case of an ASCII letter and hands any other byte back.
pub fn invert_case(c: u8) -> (r: u8)
    ensures
        r == flipped(c),
{
    if 0x61 <= c && c <= 0x7a {
        c - 0x20
    } else if 0x41 <= c && c <= 0x5a {
        c + 0x20
    } else {
        c
    }
}

/// Changing the case twice gives the byte back.
pub proof fn lemma_flipped_twice(c: u8)
    ensures
        flipped(flipped(c)) == c,
{
}

/// How the state after the first `i` bytes of a log follows from the state
/// after the first `i - 1` and the byte between them.
pub proof fn lemma_prefix_step(log: Seq<u8>, i: int)
    requires
        0 < i <= log.len(),
    ensures
        caps_on(log.take(i)) == (caps_on(log.take(i - 1)) != (log[i - 1] == CAPS_TOGGLE)),
        log[i - 1] == BACKSPACE ==> rendered(log.take(i)) == without_last(
            rendered(log.take(i - 1)),
            1,
        ),
        log[i - 1] == CAPS_TOGGLE ==> rendered(log.take(i)) == rendered(log.take(i - 1)),
        is_printable(log[i - 1]) ==> rendered(log.take(i)) == rendered(log.take(i - 1)).push(
            shown(log[i - 1], caps_on(log.take(i - 1))),
        ),
{
    assert(log.take(i).drop_last() =~= log.take(i - 1));
    assert(log.take(i).last() == log[i - 1]);
}

/// A text is never longer than the log that leaves it.
pub proof fn lemma_rendered_len(log: Seq<u8>)
    ensures
        rendered(log).len() <= log.len(),
    decreases log.len(),
{
    if log.len() > 0 {
        lemma_rendered_len(log.drop_last());
    }
}

} // verus!
