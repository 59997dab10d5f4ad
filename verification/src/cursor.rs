//! A cursor that reads a log from its end and hands out the characters that
//! survive the backspaces, last one first.

use vstd::prelude::*;
use vstd::string::*;
use crate::render::{
    caps_on, is_printable, lemma_prefix_step, lemma_rendered_len, rendered, shown, without_last,
    BACKSPACE, CAPS_TOGGLE,
};

verus! {

/// A cursor over one log. It holds the log, how many of its bytes are still
/// unread (the cursor reads from the end, so the unread bytes are a prefix of
/// the log), how many keys before its place are already deleted by backspaces
/// that it has read, and, once a call of `next` has found the log exhausted,
/// whether caps lock was switched an odd number of times in the bytes which
/// that call read at the front of the log.
pub struct Iter<'a> {
    bytes: &'a [u8],
    pos: usize,
    skip: usize,
    caps_toggled: bool,
}

/// Puts a cursor at the end of `s`, with all of its bytes unread.
pub fn mk_iter<'a>(s: &'a str) -> (it: Iter<'a>)
    ensures
        it.wf(),
        it.remaining() == s.spec_bytes(),
        !it.toggled(),
{
    let bytes = s.as_bytes();
    assert(bytes@.take(bytes@.len() as int) =~= bytes@);
    Iter { bytes, pos: bytes.len(), skip: 0, caps_toggled: false }
}

impl<'a> Iter<'a> {
    /// The cursor stands inside its log, and between two calls no deletion
    /// is pending unless the log is read to its front.
    pub closed spec fn wf(&self) -> bool {
        &&& self.pos <= self.bytes@.len()
        &&& self.skip == 0 || self.pos == 0
    }

    /// The bytes that the cursor has not read yet, in the order of the log.
    pub closed spec fn remaining(&self) -> Seq<u8> {
        self.bytes@.take(self.pos as int)
    }

    /// The flag that `is_caps_toggled` reads.
    pub closed spec fn toggled(&self) -> bool {
        self.caps_toggled
    }

    /// Whether caps lock was switched an odd number of times at the front of
    /// the log, before its first surviving key: the count that the last call
    /// of `next` made if it found the log exhausted. It is `false` while the
    /// last call handed out a key, and before any call.
    pub fn is_caps_toggled(&self) -> (r: bool)
        ensures
            r == self.toggled(),
    {
        self.caps_toggled
    }

    /// Bounds on the number of characters still to come. Each unread byte may
    /// yet be deleted by a backspace, so the lower bound is zero; the upper
    /// bound is the number of unread bytes.
    pub fn size_hint(&self) -> (r: (usize, Option<usize>))
        requires
            self.wf(),
        ensures
            r.0 == 0,
            r.1 == Some(self.remaining().len() as usize),
            rendered(self.remaining()).len() <= self.remaining().len(),
    {
        proof {
            lemma_rendered_len(self.remaining());
        }
        (0, Some(self.pos))
    }

    /// Hands out the last character of the text that the unread bytes leave,
    /// as the key that was pressed for it, and moves the cursor before that
    /// key. With the key comes whether caps lock was switched an odd number of
    /// times in the bytes just read; the cursor's own flag is then clear.
    ///
    /// Nothing is handed out exactly when the unread bytes leave no text. The
    /// cursor is then at the front of the log, and its flag says whether caps
    /// lock was on after the bytes that were left.
    ///
    /// Otherwise the unread bytes shrink to the prefix before the key; that
    /// prefix leaves the same text less its last character; the character
    /// shown is the key in the case that caps lock had before it; and no
    /// prefix that reaches past the key leaves less text than all the bytes
    /// did, so the key is the one that no later backspace deleted.
    pub fn next(&mut self) -> (r: Option<(u8, bool)>)
        requires
            old(self).wf(),
        ensures
            final(self).wf(),
            final(self).remaining().len() <= old(self).remaining().len(),
            final(self).remaining() == old(self).remaining().take(
                final(self).remaining().len() as int,
            ),
            r is None <==> rendered(old(self).remaining()).len() == 0,
            r is None ==> final(self).remaining().len() == 0 && final(self).toggled() == caps_on(
                old(self).remaining(),
            ),
            r matches Some((c, t)) ==> yields(
                old(self).remaining(),
                final(self).remaining(),
                c,
                t,
            ) && !final(self).toggled(),
    {
        let ghost log = self.bytes@;
        let ghost start = self.pos as int;
        let ghost text = rendered(log.take(start));
        self.caps_toggled = false;
        let mut toggled = false;
        while self.pos > 0
            invariant
                self.bytes@ == log,
                old(self).remaining() == log.take(start),
                text == rendered(log.take(start)),
                0 <= self.pos <= start <= log.len(),
                self.skip + self.pos <= start || self.pos == 0,
                without_last(rendered(log.take(self.pos as int)), self.skip as nat) == text,
                !self.caps_toggled,
                toggled == (caps_on(log.take(start)) != caps_on(
                    log.take(self.pos as int),
                )),
                forall|q: int|
                    self.pos <= q <= start ==> text.len() <= (#[trigger] rendered(
                        log.take(q),
                    )).len(),
            decreases self.pos,
        {
            let c = self.bytes[self.pos - 1];
            proof {
                lemma_prefix_step(log, self.pos as int);
            }
            self.pos = self.pos - 1;
            if c == BACKSPACE {
                self.skip = self.skip + 1;
            } else if c == CAPS_TOGGLE {
                toggled = !toggled;
            } else if self.skip == 0 {
                proof {
                    let before = log.take(start);
                    let after = log.take(self.pos as int);
                    assert(before.take(after.len() as int) =~= after);
                    assert(text.drop_last() =~= rendered(after));
                    assert forall|q: int| after.len() < q <= before.len() implies text.len()
                        <= (#[trigger] rendered(before.take(q))).len() by {
                        assert(before.take(q) =~= log.take(q));
                    }
                }
                return Some((c, toggled));
            } else {
                self.skip = self.skip - 1;
            }
        }
        proof {
            assert(log.take(start).take(0) =~= log.take(0));
        }
        self.caps_toggled = toggled;
        None
    }
}

/// What it means that a cursor with the bytes `before` unread hands out the
/// key `c` with the flag `t` and keeps the bytes `after` unread.
pub open spec fn yields(before: Seq<u8>, after: Seq<u8>, c: u8, t: bool) -> bool {
    &&& after.len() < before.len()
    &&& before[after.len() as int] == c
    &&& is_printable(c)
    &&& rendered(before).len() > 0
    &&& rendered(after) == rendered(before).drop_last()
    &&& rendered(before).last() == shown(c, caps_on(after))
    &&& t == (caps_on(before) != caps_on(after))
    &&& forall|q: int|
        after.len() < q <= before.len() ==> rendered(before).len() <= (#[trigger] rendered(
            before.take(q),
        )).len()
}

} // verus!
