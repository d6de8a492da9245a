//! Whether sound is playing, and an indicator that shows it on an output pin.
//!
//! ALSA reports the state of each PCM substream in a status file; a substream
//! that plays reports `RUNNING`.
use vstd::prelude::*;

verus! {

use crate::home_wizard::Level;

/// The word by which a status file reports a playing substream: `RUNNING`.
pub open spec fn running_word() -> Seq<u8> {
    seq![82u8, 85u8, 78u8, 78u8, 73u8, 78u8, 71u8]
}

/// `contents` holds `word` starting at `at`.
pub open spec fn occurs_at(contents: Seq<u8>, word: Seq<u8>, at: int) -> bool {
    0 <= at && at + word.len() <= contents.len() && contents.subrange(at, at + word.len() as int) == word
}

/// `contents` holds `RUNNING` somewhere.
pub open spec fn reports_running(contents: Seq<u8>) -> bool {
    exists|at: int| occurs_at(contents, running_word(), at)
}

/// A status file reports playing exactly when the bytes `R U N N I N G`
/// (82 85 78 78 73 78 71) stand in it one after the other.
pub proof fn lemma_running_meaning(contents: Seq<u8>)
    ensures
        reports_running(contents) <==> exists|i: int|
            0 <= i && i + 7 <= contents.len() && #[trigger] contents[i] == 82 && contents[i + 1] == 85
                && contents[i + 2] == 78 && contents[i + 3] == 78 && contents[i + 4] == 73 && contents[i + 5]
                == 78 && contents[i + 6] == 71,
{
    if reports_running(contents) {
        let at = choose|at: int| occurs_at(contents, running_word(), at);
        assert(contents.subrange(at, at + 7) == running_word());
        assert(contents[at] == contents.subrange(at, at + 7)[0]);
        assert(contents[at + 1] == contents.subrange(at, at + 7)[1]);
        assert(contents[at + 2] == contents.subrange(at, at + 7)[2]);
        assert(contents[at + 3] == contents.subrange(at, at + 7)[3]);
        assert(contents[at + 4] == contents.subrange(at, at + 7)[4]);
        assert(contents[at + 5] == contents.subrange(at, at + 7)[5]);
        assert(contents[at + 6] == contents.subrange(at, at + 7)[6]);
    }
    assert forall|i: int|
        0 <= i && i + 7 <= contents.len() && #[trigger] contents[i] == 82 && contents[i + 1] == 85 && contents[i + 2]
            == 78 && contents[i + 3] == 78 && contents[i + 4] == 73 && contents[i + 5] == 78 && contents[i + 6]
            == 71 implies reports_running(contents) by {
        assert(contents.subrange(i, i + 7) =~= running_word());
        assert(occurs_at(contents, running_word(), i));
    }
}

/// Whether the contents of a substream status file report it as playing.
pub fn status_reports_running(contents: &[u8]) -> (running: bool)
    ensures
        running == reports_running(contents@),
{
    let word: Vec<u8> = vec![82u8, 85u8, 78u8, 78u8, 73u8, 78u8, 71u8];
    assert(word@ =~= running_word());
    let n = contents.len();
    if n < 7 {
        assert forall|at: int| !occurs_at(contents@, running_word(), at) by {}
        return false;
    }
    let mut at: usize = 0;
    while at <= n - 7
        invariant
            n == contents@.len(),
            word@ == running_word(),
            at <= n,
            7 <= n,
            forall|a: int| 0 <= a < at ==> !occurs_at(contents@, running_word(), a),
        decreases n - at,
    {
        let mut j: usize = 0;
        let mut matches = true;
        while j < 7
            invariant
                at + 7 <= n,
                n == contents@.len(),
                word@ == running_word(),
                j <= 7,
                matches == (forall|x: int| 0 <= x < j ==> contents@[at + x] == running_word()[x]),
            decreases 7 - j,
        {
            if contents[at + j] != word[j] {
                matches = false;
            }
            j = j + 1;
        }
        if matches {
            assert(contents@.subrange(at as int, at + 7) =~= running_word());
            assert(occurs_at(contents@, running_word(), at as int));
            return true;
        }
        assert(!occurs_at(contents@, running_word(), at as int)) by {
            if contents@.subrange(at as int, at + 7) == running_word() {
                assert forall|x: int| 0 <= x < 7 implies contents@[at + x] == running_word()[x] by {
                    assert(contents@.subrange(at as int, at + 7)[x] == contents@[at + x]);
                }
            }
        }
        at = at + 1;
    }
    assert forall|a: int| !occurs_at(contents@, running_word(), a) by {
        if 0 <= a && a >= at as int && a + 7 <= n {
            assert(false);
        }
    }
    false
}

/// Whether any of the substream status files, given by their contents, reports
/// a playing substream.
pub fn any_reports_running(statuses: &Vec<Vec<u8>>) -> (running: bool)
    ensures
        running == exists|i: int| 0 <= i < statuses@.len() && reports_running(#[trigger] statuses@[i]@),
{
    let mut i: usize = 0;
    while i < statuses.len()
        invariant
            i <= statuses@.len(),
            forall|j: int| 0 <= j < i ==> !reports_running(#[trigger] statuses@[j]@),
        decreases statuses.len() - i,
    {
        if status_reports_running(statuses[i].as_slice()) {
            return true;
        }
        i = i + 1;
    }
    false
}

/// Shows on an output pin whether sound is playing: the pin follows the playing
/// state, and is written only when the state changes.
pub struct PlayIndicator {
    last_state: bool,
}

impl PlayIndicator {
    /// The state last shown.
    pub closed spec fn spec_last_state(&self) -> bool {
        self.last_state
    }

    /// An indicator that shows "not playing".
    pub fn new() -> (p: PlayIndicator)
        ensures
            !p.spec_last_state(),
    {
        PlayIndicator { last_state: false }
    }

    /// Take the present playing state; returns the level to write to the pin, if
    /// it changed.
    pub fn update(&mut self, state: bool) -> (write: Option<Level>)
        ensures
            final(self).spec_last_state() == state,
            write == (if state == old(self).spec_last_state() {
                None
            } else if state {
                Some(Level::High)
            } else {
                Some(Level::Low)
            }),
    {
        if state != self.last_state {
            self.last_state = state;
            if state {
                Some(Level::High)
            } else {
                Some(Level::Low)
            }
        } else {
            None
        }
    }
}

} // verus!
