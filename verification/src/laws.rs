//! Laws of the comparison, stated over the meaning of a log and proved.
//!
//! `compare` answers `same_text` of the two logs, so each law about
//! `same_text` is a law about what `compare` returns.

use vstd::prelude::*;
use crate::matching::MatchState;
use crate::render::{
    caps_on, is_printable, rendered, same_text, shown, without_last, BACKSPACE, CAPS_TOGGLE,
};

verus! {

/// A run of keys without a marker among them.
pub open spec fn is_plain(keys: Seq<u8>) -> bool {
    forall|i: int| 0 <= i < keys.len() ==> is_printable(#[trigger] keys[i])
}

/// A run of keys as it shows under one caps-lock state.
pub open spec fn typed(keys: Seq<u8>, caps: bool) -> Seq<u8> {
    Seq::new(keys.len(), |i: int| shown(keys[i], caps))
}

/// A run of `k` backspaces.
pub open spec fn backspaces(k: nat) -> Seq<u8> {
    Seq::new(k, |i: int| BACKSPACE)
}

/// Every log is the same as itself.
pub proof fn lemma_reflexive(log: Seq<u8>)
    ensures
        same_text(log, log),
{
}

/// Being the same does not depend on the order of the two logs.
pub proof fn lemma_symmetric(a: Seq<u8>, b: Seq<u8>)
    ensures
        same_text(a, b) == same_text(b, a),
{
}

/// A pair of keys never opens a reading: after a step at most as many
/// readings are open as before it, so a state that is dead stays dead.
pub proof fn lemma_step_narrows(state: MatchState, c1: u8, t1: bool, c2: u8, t2: bool)
    ensures
        state.dead() ==> state.stepped(c1, t1, c2, t2).dead(),
        !state.literal || !state.inverted ==> !state.stepped(c1, t1, c2, t2).literal
            || !state.stepped(c1, t1, c2, t2).inverted,
{
}

/// What is typed after a point depends on what came before only through the
/// text so far and the caps-lock state: two beginnings that agree in both give
/// the same text and state under any continuation.
pub proof fn lemma_same_state(x: Seq<u8>, y: Seq<u8>, rest: Seq<u8>)
    requires
        rendered(x) == rendered(y),
        caps_on(x) == caps_on(y),
    ensures
        rendered(x + rest) == rendered(y + rest),
        caps_on(x + rest) == caps_on(y + rest),
    decreases rest.len(),
{
    if rest.len() == 0 {
        assert(x + rest =~= x);
        assert(y + rest =~= y);
    } else {
        lemma_same_state(x, y, rest.drop_last());
        assert((x + rest).drop_last() =~= x + rest.drop_last());
        assert((y + rest).drop_last() =~= y + rest.drop_last());
    }
}

/// A run of plain keys is appended to the text, each key in the case that
/// the caps-lock state before the run gives it, and leaves that state alone.
pub proof fn lemma_plain_run(log: Seq<u8>, keys: Seq<u8>)
    requires
        is_plain(keys),
    ensures
        rendered(log + keys) == rendered(log) + typed(keys, caps_on(log)),
        caps_on(log + keys) == caps_on(log),
    decreases keys.len(),
{
    if keys.len() == 0 {
        assert(log + keys =~= log);
        assert(rendered(log) + typed(keys, caps_on(log)) =~= rendered(log));
    } else {
        let init = keys.drop_last();
        lemma_plain_run(log, init);
        assert((log + keys).drop_last() =~= log + init);
        assert(is_printable(keys.last()));
        assert(rendered(log + keys) =~= rendered(log) + typed(keys, caps_on(log)));
    }
}

/// A toggle turns the case of every plain key after it, up to the next
/// marker, and changes nothing of the text before it.
pub proof fn lemma_toggle_inverts(log: Seq<u8>, keys: Seq<u8>)
    requires
        is_plain(keys),
    ensures
        caps_on(log.push(CAPS_TOGGLE)) == !caps_on(log),
        rendered(log.push(CAPS_TOGGLE) + keys) == rendered(log) + typed(keys, !caps_on(log)),
{
    assert(log.push(CAPS_TOGGLE).drop_last() =~= log);
    lemma_plain_run(log.push(CAPS_TOGGLE), keys);
}

/// Logs without markers leave themselves as text, so two of them are the
/// same only if they are equal; two of different lengths never are.
pub proof fn lemma_plain_logs(a: Seq<u8>, b: Seq<u8>)
    requires
        is_plain(a),
        is_plain(b),
    ensures
        rendered(a) == a,
        rendered(b) == b,
        same_text(a, b) == (a == b),
        a.len() != b.len() ==> !same_text(a, b),
{
    lemma_plain_run(Seq::empty(), a);
    lemma_plain_run(Seq::empty(), b);
    assert(Seq::<u8>::empty() + a =~= a);
    assert(Seq::<u8>::empty() + b =~= b);
    assert(rendered(Seq::empty()) + typed(a, false) =~= a);
    assert(rendered(Seq::empty()) + typed(b, false) =~= b);
}

/// A run of `k` backspaces removes the last `k` characters of the text, or
/// all of it where it has fewer, and leaves the caps-lock state alone.
pub proof fn lemma_backspaces(log: Seq<u8>, k: nat)
    ensures
        rendered(log + backspaces(k)) == without_last(rendered(log), k),
        caps_on(log + backspaces(k)) == caps_on(log),
    decreases k,
{
    if k == 0 {
        assert(log + backspaces(k) =~= log);
        assert(without_last(rendered(log), k) =~= rendered(log));
    } else {
        let fewer = (k - 1) as nat;
        lemma_backspaces(log, fewer);
        assert((log + backspaces(k)).drop_last() =~= log + backspaces(fewer));
        assert(without_last(without_last(rendered(log), fewer), 1) =~= without_last(
            rendered(log),
            k,
        ));
    }
}

/// A backspace at the front of a log deletes nothing.
pub proof fn lemma_backspace_at_front(log: Seq<u8>, other: Seq<u8>)
    ensures
        rendered(seq![BACKSPACE] + log) == rendered(log),
        same_text(seq![BACKSPACE] + log, other) == same_text(log, other),
{
    let front = seq![BACKSPACE];
    assert(front.drop_last() =~= Seq::<u8>::empty());
    assert(rendered(front) =~= rendered(Seq::empty()));
    lemma_same_state(front, Seq::empty(), log);
    assert(Seq::<u8>::empty() + log =~= log);
}

/// Deleting the key just typed and typing it again changes nothing: the log
/// with `c`, a backspace and `c` again in the place of one `c` leaves the same
/// text, and so is the same as any other log exactly when the first was.
pub proof fn lemma_retype_unchanged(before: Seq<u8>, c: u8, rest: Seq<u8>, other: Seq<u8>)
    requires
        is_printable(c),
    ensures
        rendered(before.push(c).push(BACKSPACE).push(c) + rest) == rendered(
            before.push(c) + rest,
        ),
        same_text(before.push(c).push(BACKSPACE).push(c) + rest, other) == same_text(
            before.push(c) + rest,
            other,
        ),
{
    let once = before.push(c);
    let deleted = once.push(BACKSPACE);
    let again = deleted.push(c);
    assert(once.drop_last() =~= before);
    assert(deleted.drop_last() =~= once);
    assert(again.drop_last() =~= deleted);
    assert(rendered(once) == rendered(before).push(shown(c, caps_on(before))));
    assert(caps_on(once) == caps_on(before));
    assert(rendered(deleted) == without_last(rendered(once), 1));
    assert(rendered(deleted) =~= rendered(before));
    assert(caps_on(deleted) == caps_on(before));
    assert(rendered(again) =~= rendered(once));
    lemma_same_state(again, once, rest);
}

} // verus!
