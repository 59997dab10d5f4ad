//! The comparison itself: two cursors read in step, and two flags that say
//! which readings of the case are still open.

use vstd::prelude::*;
use vstd::string::*;
use crate::cursor::{mk_iter, yields};
use crate::render::{
    caps_on, flipped, invert_case, lemma_flipped_twice, rendered, same_text, shown,
};

verus! {

/// What is still possible after some characters of two logs have been paired,
/// read from the end. `literal` says that all pairs agree if caps lock stands
/// alike in both logs where the cursors are; `inverted` says that they agree if
/// it stands differently there.
#[derive(Clone, Copy, Debug, PartialEq, Eq, Structural)]
pub struct MatchState {
    pub literal: bool,
    pub inverted: bool,
}

impl MatchState {
    /// The state after one more pair of keys: `c1` and `c2`, each with the
    /// flag that says whether its log switched caps lock since the pair
    /// before. Where just one log did, the two readings change places. Then
    /// each reading survives only if the new pair agrees under it.
    pub open spec fn stepped(self, c1: u8, t1: bool, c2: u8, t2: bool) -> MatchState {
        let base = if t1 != t2 {
            self.swapped()
        } else {
            self
        };
        MatchState {
            literal: base.literal && c1 == c2,
            inverted: base.inverted && c1 == flipped(c2),
        }
    }

    /// The state with its two readings exchanged.
    pub open spec fn swapped(self) -> MatchState {
        MatchState { literal: self.inverted, inverted: self.literal }
    }

    /// Neither reading is open any more.
    pub open spec fn dead(self) -> bool {
        !self.literal && !self.inverted
    }

    /// The state before any pair was read: both readings are open.
    pub fn new() -> (s: MatchState)
        ensures
            s.literal,
            s.inverted,
    {
        MatchState { literal: true, inverted: true }
    }

    /// Takes one more pair of keys into account.
    pub fn step(self, c1: u8, t1: bool, c2: u8, t2: bool) -> (s: MatchState)
        ensures
            s == self.stepped(c1, t1, c2, t2),
    {
        let base = if t1 != t2 {
            MatchState { literal: self.inverted, inverted: self.literal }
        } else {
            self
        };
        MatchState {
            literal: base.literal && c1 == c2,
            inverted: base.inverted && c1 == invert_case(c2),
        }
    }

    /// Whether the logs can no longer be the same, whatever is still unread.
    pub fn is_dead(self) -> (r: bool)
        ensures
            r == self.dead(),
    {
        !(self.literal || self.inverted)
    }

    /// The answer once both logs are read to the front: the inverted reading
    /// where caps lock was switched at the front of just one log, the literal
    /// reading otherwise.
    pub fn verdict(self, front_differs: bool) -> (r: bool)
        ensures
            r == if front_differs {
                self.inverted
            } else {
                self.literal
            },
    {
        if front_differs {
            self.inverted
        } else {
            self.literal
        }
    }
}

/// The character of a text that stands `j` places before its last one.
spec fn from_end(text: Seq<u8>, j: int) -> u8 {
    text[text.len() - 1 - j]
}

/// The last `n` characters of `x` are those of `y`, each in its other case
/// where `caps` is set.
spec fn tails_agree(x: Seq<u8>, y: Seq<u8>, n: int, caps: bool) -> bool {
    forall|j: int| 0 <= j < n ==> from_end(x, j) == shown(#[trigger] from_end(y, j), caps)
}

/// Two texts of one length are equal exactly when all their characters agree,
/// counted from the end.
proof fn lemma_whole_tails(x: Seq<u8>, y: Seq<u8>)
    requires
        x.len() == y.len(),
    ensures
        tails_agree(x, y, x.len() as int, false) == (x == y),
{
    if tails_agree(x, y, x.len() as int, false) {
        assert forall|i: int| 0 <= i < x.len() implies x[i] == y[i] by {
            assert(from_end(x, x.len() - 1 - i) == shown(from_end(y, x.len() - 1 - i), false));
        }
        assert(x =~= y);
    }
}

/// Whether two typed logs leave the same text. Backspaces are NUL bytes and
/// caps-lock toggles are tabs; both logs must be ASCII. Neither log is copied
/// or changed, and nothing is allocated.
pub fn compare(s1: &str, s2: &str) -> (r: bool)
    requires
        s1.is_ascii(),
        s2.is_ascii(),
    ensures
        r == same_text(s1.spec_bytes(), s2.spec_bytes()),
{
    let mut it1 = mk_iter(s1);
    let mut it2 = mk_iter(s2);
    let mut state = MatchState::new();
    let ghost x = rendered(s1.spec_bytes());
    let ghost y = rendered(s2.spec_bytes());
    let ghost n: int = 0;
    loop
        invariant
            it1.wf(),
            it2.wf(),
            x == rendered(s1.spec_bytes()),
            y == rendered(s2.spec_bytes()),
            0 <= n <= x.len(),
            n <= y.len(),
            rendered(it1.remaining()) == x.take(x.len() - n),
            rendered(it2.remaining()) == y.take(y.len() - n),
            state.literal == tails_agree(
                x,
                y,
                n,
                caps_on(it1.remaining()) != caps_on(it2.remaining()),
            ),
            state.inverted == tails_agree(
                x,
                y,
                n,
                caps_on(it1.remaining()) == caps_on(it2.remaining()),
            ),
        decreases it1.remaining().len(),
    {
        let ghost rest1 = it1.remaining();
        let ghost rest2 = it2.remaining();
        let ghost before = state;
        let n1 = it1.next();
        let n2 = it2.next();
        match (n1, n2) {
            (Some((c1, t1)), Some((c2, t2))) => {
                state = state.step(c1, t1, c2, t2);
                proof {
                    lemma_pair_step(x, y, n, rest1, rest2, it1.remaining(), it2.remaining(), before, c1, t1, c2, t2);
                    n = n + 1;
                }
                if state.is_dead() {
                    proof {
                        lemma_dead_differs(x, y, n, caps_on(it1.remaining()) != caps_on(it2.remaining()));
                    }
                    return false;
                }
            },
            (None, None) => {
                proof {
                    lemma_whole_tails(x, y);
                }
                return state.verdict(it1.is_caps_toggled() != it2.is_caps_toggled());
            },
            _ => {
                return false;
            },
        }
    }
}

/// Once neither reading is open, the two texts differ.
proof fn lemma_dead_differs(x: Seq<u8>, y: Seq<u8>, n: int, caps: bool)
    requires
        0 <= n <= x.len(),
        n <= y.len(),
        !tails_agree(x, y, n, caps),
        !tails_agree(x, y, n, !caps),
    ensures
        x != y,
{
    if x == y {
        assert(tails_agree(x, y, n, false));
    }
}

/// One step of the comparison keeps the meaning of the two flags: after the
/// pair is taken in, each flag says whether the last `n + 1` characters of the
/// two texts agree under its reading at the cursors' new places.
proof fn lemma_pair_step(
    x: Seq<u8>,
    y: Seq<u8>,
    n: int,
    rest1: Seq<u8>,
    rest2: Seq<u8>,
    next1: Seq<u8>,
    next2: Seq<u8>,
    state: MatchState,
    c1: u8,
    t1: bool,
    c2: u8,
    t2: bool,
)
    requires
        0 <= n <= x.len(),
        n <= y.len(),
        rendered(rest1) == x.take(x.len() - n),
        rendered(rest2) == y.take(y.len() - n),
        yields(rest1, next1, c1, t1),
        yields(rest2, next2, c2, t2),
        state.literal == tails_agree(x, y, n, caps_on(rest1) != caps_on(rest2)),
        state.inverted == tails_agree(x, y, n, caps_on(rest1) == caps_on(rest2)),
    ensures
        n < x.len(),
        n < y.len(),
        rendered(next1) == x.take(x.len() - (n + 1)),
        rendered(next2) == y.take(y.len() - (n + 1)),
        state.stepped(c1, t1, c2, t2).literal == tails_agree(
            x,
            y,
            n + 1,
            caps_on(next1) != caps_on(next2),
        ),
        state.stepped(c1, t1, c2, t2).inverted == tails_agree(
            x,
            y,
            n + 1,
            caps_on(next1) == caps_on(next2),
        ),
{
    let after = state.stepped(c1, t1, c2, t2);
    let d = caps_on(next1) != caps_on(next2);
    assert(x.take(x.len() - n).len() == x.len() - n);
    assert(y.take(y.len() - n).len() == y.len() - n);
    assert(rendered(next1) =~= x.take(x.len() - (n + 1)));
    assert(rendered(next2) =~= y.take(y.len() - (n + 1)));
    assert(from_end(x, n) == shown(c1, caps_on(next1)));
    assert(from_end(y, n) == shown(c2, caps_on(next2)));
    lemma_flipped_twice(c1);
    lemma_flipped_twice(c2);
    assert((from_end(x, n) == shown(from_end(y, n), d)) == (c1 == c2));
    assert((from_end(x, n) == shown(from_end(y, n), !d)) == (c1 == flipped(c2)));
    assert(tails_agree(x, y, n + 1, d) == (tails_agree(x, y, n, d) && from_end(x, n) == shown(
        from_end(y, n),
        d,
    )));
    assert(tails_agree(x, y, n + 1, !d) == (tails_agree(x, y, n, !d) && from_end(x, n) == shown(
        from_end(y, n),
        !d,
    )));
}

} // verus!
