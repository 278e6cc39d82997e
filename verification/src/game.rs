//! The game-session state machine: one round of guessing letters against a
//! fixed target word, with a bounded budget of incorrect attempts.

use vstd::prelude::*;
use vstd::string::*;

verus! {

/// Outcome of a single guess: the letter occurs in the word, or it does not.
#[derive(Copy, Clone, Debug, PartialEq, Eq, Structural)]
pub enum GuessStatus {
    Correct,
    Incorrect,
}

/// Whether the round goes on or has ended (won or out of guesses).
#[derive(Copy, Clone, Debug, PartialEq, Eq, Structural)]
pub enum GameState {
    InProgress,
    Complete,
}

/// The index map derived from word `w`: one `(position, character)` entry per
/// character of the word, in left-to-right order.
pub open spec fn index_map_ok(data: Seq<(usize, char)>, w: Seq<char>) -> bool {
    &&& data.len() == w.len()
    &&& forall|i: int| 0 <= i < w.len() ==> #[trigger] data[i] == (i as usize, w[i])
}

/// The display buffer after a guess of `c` against word `w`: every position
/// where the word holds `c` shows `c`, every other position keeps its value.
pub open spec fn revealed_after(d: Seq<char>, w: Seq<char>, c: char) -> Seq<char> {
    Seq::new(d.len(), |i: int| if w[i] == c { c } else { d[i] })
}

/// The letters of `w` that still have at least one unrevealed position in the
/// display buffer `d`.
pub open spec fn hidden_letters(d: Seq<char>, w: Seq<char>) -> Set<char> {
    Set::new(|c: char| exists|i: int| 0 <= i < w.len() && w[i] == c && d[i] == '_')
}

/// All mutable state of one round: the target word, the index map derived
/// from it, the display buffer, the log of incorrect guesses, and the count
/// of incorrect guesses against its fixed maximum.
pub struct GameData {
    pub word: String,
    pub data: Vec<(usize, char)>,
    pub display: Vec<char>,
    pub attempts: Vec<char>,
    pub try_count: i8,
    pub max_count: i8,
}

impl GameData {
    /// Round invariant: index map and display buffer line up with the word,
    /// every display position is either revealed or the placeholder, and the
    /// attempt counter stays within the budget.
    pub open spec fn wf(self) -> bool {
        &&& self.display@.len() == self.word@.len()
        &&& index_map_ok(self.data@, self.word@)
        &&& forall|i: int| 0 <= i < self.display@.len() ==>
                #[trigger] self.display@[i] == self.word@[i] || self.display@[i] == '_'
        &&& 0 <= self.try_count <= self.max_count
    }

    /// Creates a fresh round for `word`: an all-placeholder display, an index
    /// map with one entry per character, an empty attempt log, and a zeroed
    /// counter of incorrect guesses.
    pub fn new(word: String, max_count: i8) -> (gd: GameData)
        requires
            max_count >= 0,
        ensures
            gd.wf(),
            gd.word@ == word@,
            gd.display@.len() == word@.len(),
            forall|i: int| 0 <= i < word@.len() ==> gd.display@[i] == '_',
            gd.attempts@ == Seq::<char>::empty(),
            gd.try_count == 0,
            gd.max_count == max_count,
    {
        let n = word.as_str().unicode_len();
        let mut data: Vec<(usize, char)> = Vec::new();
        let mut display: Vec<char> = Vec::new();
        let mut i: usize = 0;
        while i < n
            invariant
                i <= n,
                n == word@.len(),
                data@.len() == i,
                display@.len() == i,
                forall|j: int| 0 <= j < i ==> #[trigger] data@[j] == (j as usize, word@[j]),
                forall|j: int| 0 <= j < i ==> display@[j] == '_',
            decreases n - i,
        {
            let c = word.as_str().get_char(i);
            data.push((i, c));
            display.push('_');
            i += 1;
        }
        GameData { word, data, display, attempts: Vec::new(), try_count: 0, max_count }
    }

    /// Applies one guess. A letter that occurs in the word reveals every
    /// position holding it and costs nothing; any other letter is appended to
    /// the attempt log and leaves the display untouched. The attempt counter
    /// is not changed here (see `check_count`).
    pub fn guess(&mut self, user_guess: char) -> (status: GuessStatus)
        requires
            old(self).wf(),
        ensures
            final(self).wf(),
            final(self).word@ == old(self).word@,
            final(self).data@ == old(self).data@,
            final(self).try_count == old(self).try_count,
            final(self).max_count == old(self).max_count,
            status == GuessStatus::Correct <==> old(self).word@.contains(user_guess),
            status == GuessStatus::Correct ==> final(self).display@ == revealed_after(
                old(self).display@,
                old(self).word@,
                user_guess,
            ),
            status == GuessStatus::Correct ==> final(self).attempts@ == old(self).attempts@,
            status == GuessStatus::Incorrect ==> final(self).display@ == old(self).display@,
            status == GuessStatus::Incorrect ==> final(self).attempts@ == old(self).attempts@.push(
                user_guess,
            ),
    {
        if word_contains(self.word.as_str(), user_guess) {
            let n = self.data.len();
            let mut k: usize = 0;
            while k < n
                invariant
                    k <= n,
                    n == self.data@.len(),
                    old(self).wf(),
                    self.word@ == old(self).word@,
                    self.data@ == old(self).data@,
                    self.attempts@ == old(self).attempts@,
                    self.try_count == old(self).try_count,
                    self.max_count == old(self).max_count,
                    self.display@.len() == old(self).display@.len(),
                    forall|j: int|
                        0 <= j < k ==> #[trigger] self.display@[j] == (if old(self).word@[j]
                            == user_guess {
                            user_guess
                        } else {
                            old(self).display@[j]
                        }),
                    forall|j: int|
                        k <= j < self.display@.len() ==> #[trigger] self.display@[j]
                            == old(self).display@[j],
                decreases n - k,
            {
                let (idx, letter) = self.data[k];
                assert(old(self).data@[k as int] == (k, old(self).word@[k as int]));
                if letter == user_guess {
                    self.display[idx] = letter;
                }
                k += 1;
            }
            assert(self.display@ =~= revealed_after(
                old(self).display@,
                old(self).word@,
                user_guess,
            ));
            GuessStatus::Correct
        } else {
            self.attempts.push(user_guess);
            GuessStatus::Incorrect
        }
    }

    /// Reports whether the round is still in progress: it is complete exactly
    /// when no placeholder is left in the display buffer, which is checked
    /// after every correct guess.
    pub fn has_blanks(&self) -> (state: GameState)
        ensures
            state == GameState::InProgress <==> self.display@.contains('_'),
            state == GameState::Complete <==> !self.display@.contains('_'),
    {
        let n = self.display.len();
        let mut i: usize = 0;
        while i < n
            invariant
                i <= n,
                n == self.display@.len(),
                forall|j: int| 0 <= j < i ==> self.display@[j] != '_',
            decreases n - i,
        {
            if self.display[i] == '_' {
                assert(self.display@.contains('_'));
                return GameState::InProgress;
            }
            i += 1;
        }
        assert(!self.display@.contains('_'));
        GameState::Complete
    }

    /// Registers one incorrect guess against the budget: the counter rises by
    /// one, and the round completes exactly when it reaches the maximum.
    pub fn check_count(&mut self) -> (state: GameState)
        requires
            old(self).wf(),
            old(self).try_count < old(self).max_count,
        ensures
            final(self).wf(),
            final(self).word@ == old(self).word@,
            final(self).data@ == old(self).data@,
            final(self).display@ == old(self).display@,
            final(self).attempts@ == old(self).attempts@,
            final(self).max_count == old(self).max_count,
            final(self).try_count == old(self).try_count + 1,
            state == GameState::Complete <==> final(self).try_count == final(self).max_count,
    {
        self.try_count = self.try_count + 1;
        if self.try_count >= self.max_count {
            GameState::Complete
        } else {
            GameState::InProgress
        }
    }

    /// One full step of the round's state machine, as driven by the outer
    /// game loop: apply the guess, then decide whether the round goes on.
    /// After a correct guess the round completes exactly when nothing is left
    /// to reveal; after an incorrect one exactly when the budget is used up.
    pub fn submit_guess(&mut self, letter: char) -> (r: (GuessStatus, GameState))
        requires
            old(self).wf(),
            old(self).try_count < old(self).max_count,
        ensures
            final(self).wf(),
            final(self).word@ == old(self).word@,
            final(self).data@ == old(self).data@,
            final(self).max_count == old(self).max_count,
            r.0 == GuessStatus::Correct <==> old(self).word@.contains(letter),
            r.0 == GuessStatus::Correct ==> final(self).display@ == revealed_after(
                old(self).display@,
                old(self).word@,
                letter,
            ),
            r.0 == GuessStatus::Correct ==> final(self).attempts@ == old(self).attempts@
                && final(self).try_count == old(self).try_count,
            r.0 == GuessStatus::Correct ==> (r.1 == GameState::Complete
                <==> !final(self).display@.contains('_')),
            r.0 == GuessStatus::Incorrect ==> final(self).display@ == old(self).display@,
            r.0 == GuessStatus::Incorrect ==> final(self).attempts@ == old(self).attempts@.push(
                letter,
            ) && final(self).try_count == old(self).try_count + 1,
            r.0 == GuessStatus::Incorrect ==> (r.1 == GameState::Complete <==> old(self).try_count
                + 1 == old(self).max_count),
    {
        match self.guess(letter) {
            GuessStatus::Correct => {
                let state = self.has_blanks();
                (GuessStatus::Correct, state)
            },
            GuessStatus::Incorrect => {
                let state = self.check_count();
                (GuessStatus::Incorrect, state)
            },
        }
    }
}

/// Law: the index map derived from a word has one entry per character, so its
/// length equals the word's character count, its characters read off in order
/// are exactly the word's characters, and in particular the two multisets of
/// characters are equal.
pub proof fn lemma_index_map_characters(data: Seq<(usize, char)>, w: Seq<char>)
    requires
        index_map_ok(data, w),
    ensures
        data.len() == w.len(),
        data.map_values(|t: (usize, char)| t.1) == w,
        data.map_values(|t: (usize, char)| t.1).to_multiset() == w.to_multiset(),
{
    assert(data.map_values(|t: (usize, char)| t.1) =~= w);
}

/// Law (idempotence): revealing a letter is idempotent, so guessing the same
/// correct letter twice leaves the display buffer unchanged on the second
/// guess. (That the repeat costs no attempt is part of `guess`'s contract: a
/// correct guess never touches the counter or the log.)
pub proof fn lemma_guess_idempotent(d: Seq<char>, w: Seq<char>, c: char)
    requires
        d.len() == w.len(),
    ensures
        revealed_after(revealed_after(d, w, c), w, c) == revealed_after(d, w, c),
{
    assert(revealed_after(revealed_after(d, w, c), w, c) =~= revealed_after(d, w, c));
}

/// Law (monotonicity): no guess ever turns a revealed position back into the
/// placeholder. Every position already showing its word character keeps it,
/// whatever letter is guessed; an incorrect guess leaves the display unchanged
/// altogether by `guess`'s contract. So each single step — and hence any
/// sequence of guesses — preserves revealed positions.
pub proof fn lemma_display_monotonic(d: Seq<char>, w: Seq<char>, c: char)
    requires
        d.len() == w.len(),
        forall|i: int| 0 <= i < d.len() ==> #[trigger] d[i] == w[i] || d[i] == '_',
    ensures
        forall|i: int|
            0 <= i < d.len() && d[i] != '_' ==> #[trigger] revealed_after(d, w, c)[i] == d[i],
{
}

/// The hidden letters form a subset of the word's finite set of distinct
/// characters, so there are never more of them than the word has distinct
/// characters.
pub proof fn lemma_hidden_letters_finite(d: Seq<char>, w: Seq<char>)
    ensures
        hidden_letters(d, w).subset_of(w.to_set()),
        hidden_letters(d, w).finite(),
        hidden_letters(d, w).len() <= w.to_set().len(),
{
    broadcast use vstd::seq_lib::seq_to_set_is_finite;

    assert forall|c: char| hidden_letters(d, w).contains(c) implies w.to_set().contains(c) by {
        let i = choose|i: int| 0 <= i < w.len() && w[i] == c && d[i] == '_';
        assert(w[i] == c);
        assert(w.contains(c));
    };
    vstd::set_lib::lemma_len_subset(hidden_letters(d, w), w.to_set());
}

/// A correct guess of a letter with at least one unrevealed position removes
/// exactly that letter from the hidden set, which therefore shrinks by one.
/// The guessed letter must not be the placeholder itself: "revealing" a
/// placeholder that the word really contains cannot unhide it.
pub proof fn lemma_correct_guess_removes_letter(d: Seq<char>, w: Seq<char>, c: char)
    requires
        d.len() == w.len(),
        hidden_letters(d, w).contains(c),
        c != '_',
    ensures
        hidden_letters(revealed_after(d, w, c), w) == hidden_letters(d, w).remove(c),
        hidden_letters(revealed_after(d, w, c), w).len() < hidden_letters(d, w).len(),
{
    let d2 = revealed_after(d, w, c);
    assert forall|x: char| hidden_letters(d2, w).contains(x) implies hidden_letters(d, w).remove(
        c,
    ).contains(x) by {
        let i = choose|i: int| 0 <= i < w.len() && w[i] == x && d2[i] == '_';
        assert(d2[i] == (if w[i] == c { c } else { d[i] }));
        assert(w[i] != c && d[i] == '_');
    };
    assert forall|x: char| hidden_letters(d, w).remove(c).contains(x) implies hidden_letters(
        d2,
        w,
    ).contains(x) by {
        let i = choose|i: int| 0 <= i < w.len() && w[i] == x && d[i] == '_';
        assert(d2[i] == (if w[i] == c { c } else { d[i] }));
        assert(w[i] == x && d2[i] == '_');
    };
    assert(hidden_letters(d2, w) =~= hidden_letters(d, w).remove(c));
    lemma_hidden_letters_finite(d, w);
    assert(hidden_letters(d, w).remove(c).len() == hidden_letters(d, w).len() - 1) by {
        broadcast use vstd::set::axiom_set_remove_len;

    };
}

/// A correct guess of a letter that is already fully revealed changes the
/// display buffer not at all (the repeat case of idempotence, under the round
/// invariant on the display buffer).
pub proof fn lemma_repeat_guess_no_change(d: Seq<char>, w: Seq<char>, c: char)
    requires
        d.len() == w.len(),
        forall|i: int| 0 <= i < d.len() ==> #[trigger] d[i] == w[i] || d[i] == '_',
        !hidden_letters(d, w).contains(c),
    ensures
        revealed_after(d, w, c) == d,
{
    assert forall|i: int| 0 <= i < d.len() implies revealed_after(d, w, c)[i] == d[i] by {
        if w[i] == c {
            assert(!(w[i] == c && d[i] == '_'));
            assert(d[i] == w[i]);
        }
    };
    assert(revealed_after(d, w, c) =~= d);
}

/// The round is won exactly when no letter of the word is hidden: the display
/// buffer holds a placeholder somewhere if and only if some letter still has
/// an unrevealed position.
pub proof fn lemma_complete_iff_no_hidden(d: Seq<char>, w: Seq<char>)
    requires
        d.len() == w.len(),
        forall|i: int| 0 <= i < d.len() ==> #[trigger] d[i] == w[i] || d[i] == '_',
    ensures
        d.contains('_') <==> exists|x: char| hidden_letters(d, w).contains(x),
{
    if d.contains('_') {
        let i = choose|i: int| 0 <= i < d.len() && d[i] == '_';
        assert(w[i] == w[i] && d[i] == '_');
        assert(hidden_letters(d, w).contains(w[i]));
    }
    if exists|x: char| hidden_letters(d, w).contains(x) {
        let x = choose|x: char| hidden_letters(d, w).contains(x);
        let i = choose|i: int| 0 <= i < w.len() && w[i] == x && d[i] == '_';
        assert(d[i] == '_');
        assert(d.contains('_'));
    }
}

/// Law (termination bound): a round reaches `Complete` within at most
/// `max_count` incorrect guesses plus one correct guess per distinct letter
/// of the word. Each incorrect guess raises the attempt counter by one and
/// leaves the display alone (`guess` and `check_count`), and the round
/// completes when the counter reaches `max_count`; each correct guess of a
/// still-hidden letter strictly shrinks the hidden set, which starts no
/// larger than the word's count of distinct characters; a correct guess of an
/// already-revealed letter changes nothing; and the round is won exactly when
/// the hidden set is empty. The one excluded input is a guess of the
/// placeholder character against a word that itself contains it: revealing
/// such a position cannot unhide it, and the round then cannot be won.
pub proof fn lemma_termination_bound(d: Seq<char>, w: Seq<char>, c: char)
    requires
        d.len() == w.len(),
        forall|i: int| 0 <= i < d.len() ==> #[trigger] d[i] == w[i] || d[i] == '_',
        !(w.contains('_') && c == '_'),
    ensures
        hidden_letters(d, w).finite(),
        hidden_letters(d, w).len() <= w.to_set().len(),
        hidden_letters(d, w).contains(c) ==> hidden_letters(revealed_after(d, w, c), w).len()
            < hidden_letters(d, w).len(),
        !hidden_letters(d, w).contains(c) ==> revealed_after(d, w, c) == d,
        d.contains('_') <==> exists|x: char| hidden_letters(d, w).contains(x),
{
    lemma_hidden_letters_finite(d, w);
    lemma_complete_iff_no_hidden(d, w);
    if hidden_letters(d, w).contains(c) {
        let i = choose|i: int| 0 <= i < w.len() && w[i] == c && d[i] == '_';
        assert(w.contains(c));
        lemma_correct_guess_removes_letter(d, w, c);
    } else {
        lemma_repeat_guess_no_change(d, w, c);
    }
}

/// Whether the character `c` occurs anywhere in `w`.
fn word_contains(w: &str, c: char) -> (b: bool)
    ensures
        b == w@.contains(c),
{
    let n = w.unicode_len();
    let mut i: usize = 0;
    while i < n
        invariant
            i <= n,
            n == w@.len(),
            forall|j: int| 0 <= j < i ==> w@[j] != c,
        decreases n - i,
    {
        if w.get_char(i) == c {
            assert(w@.contains(c));
            return true;
        }
        i += 1;
    }
    assert(!w@.contains(c));
    false
}

} // verus!
