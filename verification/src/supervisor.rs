use vstd::prelude::*;

use crate::explanations::{explanation_listed, parse_string_list, string_list_from_json, strings_view};
use crate::models::Word;
use crate::text::{trim, trimmed};

verus! {

/// A word takes part in reviews while its status is not negative.
pub open spec fn is_reviewable_status(status: i32) -> bool {
    status > -1
}

/// The words of `words` that take part in reviews, in their order.
pub open spec fn reviewable_words(words: Seq<Word>) -> Seq<Word> {
    words.filter(|w: Word| is_reviewable_status(w.status))
}

/// How many words a session reviews out of `available` reviewable ones:
/// half of them, and no more than `limit` where one is given.
pub open spec fn review_size(available: nat, limit: Option<usize>) -> nat {
    match limit {
        Some(l) => if available / 2 <= l { available / 2 } else { l as nat },
        None => available / 2,
    }
}

/// `tasks` are the items of `pool` at the distinct positions `picks`, in the
/// order of `picks`.
pub open spec fn picked_from(tasks: Seq<Word>, pool: Seq<Word>, picks: Seq<usize>) -> bool {
    &&& picks.len() == tasks.len()
    &&& picks.no_duplicates()
    &&& forall|i: int|
        0 <= i < picks.len() ==> #[trigger] picks[i] < pool.len() && tasks[i] == pool[picks[i] as int]
}

/// The explanations stored with `w`, where its `exp_cn` is a JSON list of strings.
pub open spec fn explanations_of(w: Word) -> Option<Seq<Seq<char>>> {
    string_list_from_json(w.exp_cn@)
}

/// Whether `answer` is one of the explanations stored with `w`.
pub open spec fn answer_accepted(w: Word, answer: Seq<char>) -> bool {
    match explanations_of(w) {
        Some(list) => list.contains(answer),
        None => false,
    }
}

/// The change to a word's stored status after it was answered correctly.
#[derive(Clone, Copy, Debug, PartialEq, Eq)]
pub enum StatusUpdate {
    /// The word's status goes up by one.
    Promote { id: i32 },
    /// The word's status becomes -1: it leaves the reviews.
    Retire { id: i32 },
}

/// The change for the word `id` answered correctly at status `status`: it is
/// promoted while its status is below 3, and retired otherwise.
pub open spec fn status_update(id: i32, status: int) -> StatusUpdate {
    if status < 3 {
        StatusUpdate::Promote { id }
    } else {
        StatusUpdate::Retire { id }
    }
}

/// The change to `w` once it was answered correctly.
pub open spec fn status_update_for(w: Word) -> StatusUpdate {
    status_update(w.id, w.status as int)
}

/// The status a word reaches from `status` after `k` correct answers, each
/// applied to the stored status.
pub open spec fn status_after_answers(status: int, k: nat) -> int
    decreases k,
{
    if k == 0 {
        status
    } else {
        let before = status_after_answers(status, (k - 1) as nat);
        status_after(status_update(0, before), before)
    }
}

/// The status a word has after `update` was applied to its status `status`.
pub open spec fn status_after(update: StatusUpdate, status: int) -> int {
    match update {
        StatusUpdate::Promote { .. } => status + 1,
        StatusUpdate::Retire { .. } => -1,
    }
}

/// A review session: a list of words to review and a cursor on the word
/// currently asked.
pub trait Supervisable: Sized {
    /// The words of the session, in the order they are asked.
    spec fn task_list(&self) -> Seq<Word>;

    /// The position of the word currently asked.
    spec fn position(&self) -> nat;

    /// Starts a session over the reviewable words of `all_words`: it picks
    /// at random half of them, at most `size_o` where that is given, each
    /// at most once, and asks the first one.
    fn initialize(all_words: Vec<Word>, size_o: Option<usize>) -> (s: Self)
        ensures
            s.position() == 0,
            s.task_list().len() == review_size(reviewable_words(all_words@).len(), size_o),
            size_o is None ==> s.task_list().len() == reviewable_words(all_words@).len() / 2,
            size_o matches Some(limit) ==> {
                &&& s.task_list().len() <= limit
                &&& s.task_list().len() <= reviewable_words(all_words@).len() / 2
                &&& (s.task_list().len() == limit || s.task_list().len()
                    == reviewable_words(all_words@).len() / 2)
            },
            forall|i: int|
                0 <= i < s.task_list().len() ==> (#[trigger] s.task_list()[i]).status >= 0
                    && all_words@.contains(s.task_list()[i]),
            exists|picks: Seq<usize>| picked_from(s.task_list(), reviewable_words(all_words@), picks),
    ;

    /// Checks an answer: whether `explanation` is one of the explanations of
    /// the word currently asked. There is none to check past the last word.
    fn exam(&self, explanation: &str) -> (r: bool)
        requires
            self.position() < self.task_list().len() ==> explanations_of(
                self.task_list()[self.position() as int],
            ) is Some,
        ensures
            r == (self.position() < self.task_list().len() && answer_accepted(
                self.task_list()[self.position() as int],
                explanation@,
            )),
    ;

    /// Moves on to the next word.
    fn forward(&mut self)
        requires
            old(self).position() < usize::MAX,
        ensures
            final(self).task_list() == old(self).task_list(),
            final(self).position() == old(self).position() + 1,
    ;

    /// Goes back to the previous word.
    fn backward(&mut self)
        requires
            old(self).position() > 0,
        ensures
            final(self).task_list() == old(self).task_list(),
            final(self).position() == old(self).position() - 1,
    ;

    /// The word currently asked, if the cursor is on one.
    fn get_current_word(&self) -> (r: Option<&Word>)
        ensures
            r is Some <==> self.position() < self.task_list().len(),
            r matches Some(w) ==> *w == self.task_list()[self.position() as int],
    ;

    /// Whether the word currently asked is the last one.
    fn is_finished(&self) -> (r: bool)
        requires
            self.task_list().len() > 0,
        ensures
            r == (self.position() == self.task_list().len() - 1),
    ;

    /// The change to the stored status of the word currently asked, once it
    /// was answered correctly.
    fn set_word_reviewed_once(&self) -> (u: StatusUpdate)
        requires
            self.position() < self.task_list().len(),
        ensures
            u == status_update_for(self.task_list()[self.position() as int]),
    ;

    /// Whether the session has any word to review.
    fn is_reviewable(&self) -> (r: bool)
        ensures
            r == (self.task_list().len() > 0),
    ;
}

/// A review session over words picked from the word list.
pub struct Supervisor {
    tasks: Vec<Word>,
    cursor: usize,
}

/// `rand::seq::index::sample` with the thread-local generator: `amount`
/// distinct indices below `length`, in random order. It panics where
/// `amount` exceeds `length`, which `requires` leaves out. Which indices
/// come out is chance, and not stated.
#[verifier::external_body]
fn sample_indices(length: usize, amount: usize) -> (picks: Vec<usize>)
    requires
        amount <= length,
    ensures
        picks@.len() == amount,
        picks@.no_duplicates(),
        forall|i: int| 0 <= i < picks@.len() ==> #[trigger] picks@[i] < length,
{
    rand::seq::index::sample(&mut rand::thread_rng(), length, amount).into_vec()
}

/// The reviewable words of `words`, in their order.
pub fn select_reviewable(words: &Vec<Word>) -> (res: Vec<Word>)
    ensures
        res@ == reviewable_words(words@),
{
    let mut res: Vec<Word> = Vec::new();
    let n = words.len();
    for i in 0..n
        invariant
            n == words@.len(),
            res@ == reviewable_words(words@.take(i as int)),
    {
        proof {
            reveal_with_fuel(Seq::<_>::filter, 1);
            assert(words@.take(i + 1).drop_last() =~= words@.take(i as int));
        }
        if words[i].status > -1 {
            res.push(words[i].clone());
        }
    }
    assert(words@.take(n as int) =~= words@);
    res
}

impl Supervisor {
    /// A session over the words of `pool` at the positions `picks`, asking
    /// the first of them.
    pub fn with_sample(pool: Vec<Word>, picks: Vec<usize>) -> (s: Supervisor)
        requires
            picks@.no_duplicates(),
            forall|i: int| 0 <= i < picks@.len() ==> #[trigger] picks@[i] < pool@.len(),
        ensures
            s.position() == 0,
            picked_from(s.task_list(), pool@, picks@),
    {
        let mut tasks: Vec<Word> = Vec::new();
        let n = picks.len();
        for i in 0..n
            invariant
                n == picks@.len(),
                forall|k: int| 0 <= k < picks@.len() ==> #[trigger] picks@[k] < pool@.len(),
                tasks@.len() == i,
                forall|k: int| 0 <= k < i ==> #[trigger] tasks@[k] == pool@[picks@[k] as int],
        {
            let w = pool[picks[i]].clone();
            tasks.push(w);
        }
        Supervisor { tasks, cursor: 0 }
    }
}

impl Supervisable for Supervisor {
    closed spec fn task_list(&self) -> Seq<Word> {
        self.tasks@
    }

    closed spec fn position(&self) -> nat {
        self.cursor as nat
    }

    fn initialize(all_words: Vec<Word>, size_o: Option<usize>) -> (s: Supervisor) {
        let reviewable = select_reviewable(&all_words);
        let available = reviewable.len();
        let half = available / 2;
        let amount = match size_o {
            Some(size) => if half <= size { half } else { size },
            None => half,
        };
        let picks = sample_indices(available, amount);
        let ghost pick_seq = picks@;
        let s = Supervisor::with_sample(reviewable, picks);
        assert(picked_from(s.task_list(), reviewable_words(all_words@), pick_seq));
        proof {
            lemma_review_size_is_half_within_limit(available as nat, size_o);
            lemma_picked_words_are_reviewable(all_words@, s.task_list(), pick_seq);
        }
        s
    }

    fn exam(&self, explanation: &str) -> (r: bool) {
        if self.cursor < self.tasks.len() {
            match parse_string_list(self.tasks[self.cursor].exp_cn.as_str()) {
                Some(explanations) => self.exam_explanations(&explanations, explanation),
                None => false,
            }
        } else {
            false
        }
    }

    fn forward(&mut self) {
        self.cursor += 1;
    }

    fn backward(&mut self) {
        self.cursor -= 1;
    }

    fn get_current_word(&self) -> (r: Option<&Word>) {
        if self.cursor < self.tasks.len() {
            Some(&self.tasks[self.cursor])
        } else {
            None
        }
    }

    fn is_finished(&self) -> (r: bool) {
        self.cursor == self.tasks.len() - 1
    }

    fn set_word_reviewed_once(&self) -> (u: StatusUpdate) {
        let current = &self.tasks[self.cursor];
        if current.status < 3 {
            StatusUpdate::Promote { id: current.id }
        } else {
            StatusUpdate::Retire { id: current.id }
        }
    }

    fn is_reviewable(&self) -> (r: bool) {
        self.tasks.len() > 0
    }
}

/// What became of one answer in a review session.
#[derive(Debug, PartialEq, Eq)]
pub enum ReviewStep {
    /// The learner asked to stop.
    Exit,
    /// The explanations stored with the word asked are not a JSON list of
    /// strings, so the answer could not be checked.
    Unreadable,
    /// The answer was checked. `update` is the change to the word's stored
    /// status where the answer was correct, and `finished` tells whether that
    /// word was the last one; otherwise the session moved on to the next word.
    Answered { correct: bool, update: Option<StatusUpdate>, finished: bool },
}

/// What the learner answered when asked whether to start.
#[derive(Debug, PartialEq, Eq)]
pub enum Confirmation {
    /// `Y`: start the review.
    Start,
    /// `N`: leave without reviewing.
    Quit,
    /// Anything else: ask again.
    Ask,
}

/// Reads the reply to "start the review?", white space around it ignored.
pub fn read_confirmation(input: &str) -> (c: Confirmation)
    ensures
        trimmed(input@) == "Y"@ ==> c is Start,
        trimmed(input@) == "N"@ ==> c is Quit,
        trimmed(input@) != "Y"@ && trimmed(input@) != "N"@ ==> c is Ask,
{
    proof {
        reveal_strlit("Y");
        reveal_strlit("N");
        assert("Y"@[0] != "N"@[0]);
    }
    let reply = String::from_str(trim(input));
    if reply == String::from_str("Y") {
        Confirmation::Start
    } else if reply == String::from_str("N") {
        Confirmation::Quit
    } else {
        Confirmation::Ask
    }
}


/// How many words a session reviews is the smaller of half the reviewable
/// words (rounded down) and the limit: never more than half, never more than
/// the limit, exactly half without a limit, and a limit no smaller than half
/// changes nothing.
pub proof fn lemma_review_size_is_half_within_limit(available: nat, limit: Option<usize>)
    ensures
        limit is None ==> review_size(available, limit) == available / 2,
        limit matches Some(l) ==> {
            &&& review_size(available, limit) <= l
            &&& review_size(available, limit) <= available / 2
            &&& (review_size(available, limit) == l || review_size(available, limit) == available
                / 2)
            &&& (available / 2 <= l ==> review_size(available, limit) == available / 2)
        },
        available <= usize::MAX ==> review_size(available, None) == review_size(
            available,
            Some(usize::MAX),
        ),
{
}


/// A word is reviewable exactly when its status is 0 or more: the reviewable
/// words are the given words with such a status, in their order, and only
/// those.
pub proof fn lemma_reviewable_words_have_non_negative_status(words: Seq<Word>)
    ensures
        forall|w: Word|
            #[trigger] reviewable_words(words).contains(w) <==> words.contains(w) && w.status >= 0,
        forall|i: int|
            0 <= i < reviewable_words(words).len() ==> (#[trigger] reviewable_words(words)[i]).status
                >= 0,
        reviewable_words(words).len() <= words.len(),
{
    let pred = |w: Word| is_reviewable_status(w.status);
    broadcast use vstd::seq_lib::group_filter_ensures;
    assert forall|w: Word| #[trigger] reviewable_words(words).contains(w) <==> words.contains(w)
        && w.status >= 0 by {
        if reviewable_words(words).contains(w) {
            words.lemma_filter_contains_rev(pred, w);
            let k = choose|k: int| 0 <= k < reviewable_words(words).len() && reviewable_words(words)[k] == w;
            assert(pred(reviewable_words(words)[k]));
        }
        if words.contains(w) && w.status >= 0 {
            let k = choose|k: int| 0 <= k < words.len() && words[k] == w;
            words.lemma_filter_contains(pred, k);
        }
    }
}

/// The change a correct answer makes names the word answered: it promotes
/// the word while its status is below 3 and retires it from status 3 on.
pub proof fn lemma_status_update_names_the_word(w: Word)
    ensures
        match status_update_for(w) {
            StatusUpdate::Promote { id } => id == w.id && w.status < 3,
            StatusUpdate::Retire { id } => id == w.id && w.status >= 3,
        },
        w.status < 3 ==> status_after(status_update_for(w), w.status as int) == w.status + 1,
        w.status >= 3 ==> status_after(status_update_for(w), w.status as int) == -1,
{
}

/// A session never asks a word of the pool twice: the positions it picks are
/// pairwise different.
pub proof fn lemma_picks_are_distinct(tasks: Seq<Word>, pool: Seq<Word>, picks: Seq<usize>)
    requires
        picked_from(tasks, pool, picks),
    ensures
        tasks.len() == picks.len(),
        forall|i: int, j: int|
            0 <= i < picks.len() && 0 <= j < picks.len() && i != j ==> #[trigger] picks[i]
                != #[trigger] picks[j],
        forall|i: int| 0 <= i < tasks.len() ==> pool.contains(#[trigger] tasks[i]),
{
    assert forall|i: int| 0 <= i < tasks.len() implies pool.contains(#[trigger] tasks[i]) by {
        assert(pool[picks[i] as int] == tasks[i]);
    }
}

/// Going back after moving on returns to the same word of the same list.
pub proof fn lemma_backward_undoes_forward<S: Supervisable>(before: S, moved: S, back: S)
    requires
        moved.task_list() == before.task_list(),
        moved.position() == before.position() + 1,
        back.task_list() == moved.task_list(),
        back.position() == moved.position() - 1,
    ensures
        back.task_list() == before.task_list(),
        back.position() == before.position(),
{
}

/// A word that an answer is checked against, and whose explanations were
/// stored as the encoding of `values`, accepts exactly the answers that are
/// among `values`.
pub proof fn lemma_stored_explanations_accepted(
    w: Word,
    encoded: Seq<char>,
    values: Seq<Seq<char>>,
    answer: Seq<char>,
)
    requires
        w.exp_cn@ == encoded,
        string_list_from_json(encoded) == Some(values),
    ensures
        answer_accepted(w, answer) <==> values.contains(answer),
{
}

/// A reviewable word, answered correctly again and again, is promoted until
/// its status reaches 3 and retired by the next correct answer: from status
/// `status` in 0..=3 it stays reviewable for `3 - status` more correct
/// answers and leaves the reviews at the `4 - status`-th.
pub proof fn lemma_retired_after_correct_answers(status: int)
    requires
        0 <= status <= 3,
    ensures
        forall|k: nat| k < 4 - status ==> 0 <= #[trigger] status_after_answers(status, k) <= 3,
        status_after_answers(status, (4 - status) as nat) == -1,
{
    reveal_with_fuel(status_after_answers, 5);
    assert forall|k: nat| k < 4 - status implies 0 <= #[trigger] status_after_answers(status, k)
        <= 3 by {
        reveal_with_fuel(status_after_answers, 5);
    }
}

/// Every word a session picks is one of the given words and has a status
/// of 0 or more.
pub proof fn lemma_picked_words_are_reviewable(
    all_words: Seq<Word>,
    tasks: Seq<Word>,
    picks: Seq<usize>,
)
    requires
        picked_from(tasks, reviewable_words(all_words), picks),
    ensures
        forall|i: int|
            0 <= i < tasks.len() ==> (#[trigger] tasks[i]).status >= 0 && all_words.contains(
                tasks[i],
            ),
{
    let pred = |w: Word| is_reviewable_status(w.status);
    let pool = all_words.filter(pred);
    broadcast use vstd::seq_lib::group_filter_ensures;
    assert forall|i: int| 0 <= i < tasks.len() implies (#[trigger] tasks[i]).status >= 0
        && all_words.contains(tasks[i]) by {
        let j = picks[i] as int;
        assert(tasks[i] == pool[j]);
        assert(pred(pool[j]));
        assert(pool.contains(pool[j]));
        all_words.lemma_filter_contains_rev(pred, pool[j]);
    }
}

/// Every word a session picks is one of the given words and is reviewable;
/// so a word that a correct answer retired, whose status became -1, is
/// picked by no later session.
pub proof fn lemma_sessions_pick_reviewable_words(
    all_words: Seq<Word>,
    tasks: Seq<Word>,
    picks: Seq<usize>,
    retired: Word,
)
    requires
        picked_from(tasks, reviewable_words(all_words), picks),
        status_update_for(retired) is Retire,
    ensures
        forall|i: int|
            0 <= i < tasks.len() ==> is_reviewable_status(#[trigger] tasks[i].status)
                && all_words.contains(tasks[i]),
        status_after(status_update_for(retired), retired.status as int) == -1,
        forall|i: int| 0 <= i < tasks.len() ==> #[trigger] tasks[i].status != -1,
        forall|i: int| 0 <= i < tasks.len() ==> (#[trigger] tasks[i]).status >= 0,
{
    lemma_picked_words_are_reviewable(all_words, tasks, picks);
}

/// Where a session of `len` words stands after `k` checked answers from
/// position `start`: each answer moves on by one word, except on the last.
pub open spec fn position_after_answers(start: nat, len: nat, k: nat) -> nat
    decreases k,
{
    if k == 0 {
        start
    } else {
        let before = position_after_answers(start, len, (k - 1) as nat);
        if before == len - 1 {
            before
        } else {
            before + 1
        }
    }
}

/// A session of `len` words, started on the first one, asks its words once
/// each and in order: after `k` checked answers it is on word `k`, and the
/// answer on the last word is the one that reports the session finished.
pub proof fn lemma_session_asks_each_word_once(len: nat, k: nat)
    requires
        0 < len,
        k < len,
    ensures
        position_after_answers(0, len, k) == k,
        (position_after_answers(0, len, k) == len - 1) <==> k == len - 1,
    decreases k,
{
    if k > 0 {
        lemma_session_asks_each_word_once(len, (k - 1) as nat);
    }
}

impl Supervisor {
    /// Checks an answer against `explanations`, the list already read from
    /// the explanations of the word asked: whether `explanation` is one of
    /// them. There is none to check past the last word.
    pub fn exam_explanations(&self, explanations: &Vec<String>, explanation: &str) -> (r: bool)
        requires
            self.position() < self.task_list().len() ==> explanations_of(
                self.task_list()[self.position() as int],
            ) == Some(strings_view(explanations@)),
        ensures
            r == (self.position() < self.task_list().len() && answer_accepted(
                self.task_list()[self.position() as int],
                explanation@,
            )),
    {
        if self.cursor < self.tasks.len() {
            explanation_listed(explanations, explanation)
        } else {
            false
        }
    }

    /// Checks an answer like `exam`, where the explanations of the word
    /// asked can be read: `None` where the cursor is on a word whose
    /// explanations are not a JSON list of strings. The explanations are
    /// read once and the answer is checked against the list read.
    pub fn try_exam(&self, explanation: &str) -> (r: Option<bool>)
        ensures
            (self.position() < self.task_list().len() && explanations_of(
                self.task_list()[self.position() as int],
            ) is None) ==> r is None,
            !(self.position() < self.task_list().len() && explanations_of(
                self.task_list()[self.position() as int],
            ) is None) ==> r == Some(
                self.position() < self.task_list().len() && answer_accepted(
                    self.task_list()[self.position() as int],
                    explanation@,
                ),
            ),
    {
        if self.cursor < self.tasks.len() {
            match parse_string_list(self.tasks[self.cursor].exp_cn.as_str()) {
                None => None,
                Some(explanations) => Some(self.exam_explanations(&explanations, explanation)),
            }
        } else {
            Some(false)
        }
    }

    /// Takes one answer of the review session, as typed, white space around
    /// it ignored. `_exit` stops the session. Any other answer is checked
    /// against the word asked; a correct one yields the change to that word's
    /// status. Unless the word was the last one, the session then moves on
    /// to the next word.
    pub fn review_answer(&mut self, input: &str) -> (step: ReviewStep)
        requires
            old(self).position() < old(self).task_list().len(),
        ensures
            final(self).task_list() == old(self).task_list(),
            ({
                let answer = trimmed(input@);
                let current = old(self).task_list()[old(self).position() as int];
                let last = old(self).position() == old(self).task_list().len() - 1;
                if answer == "_exit"@ {
                    step is Exit && final(self).position() == old(self).position()
                } else if explanations_of(current) is None {
                    step is Unreadable && final(self).position() == old(self).position()
                } else {
                    let correct = answer_accepted(current, answer);
                    &&& step == ReviewStep::Answered {
                        correct,
                        update: if correct { Some(status_update_for(current)) } else { None },
                        finished: last,
                    }
                    &&& final(self).position() == position_after_answers(
                        old(self).position(),
                        old(self).task_list().len(),
                        1,
                    )
                }
            }),
    {
        let answer = trim(input);
        if String::from_str(answer) == String::from_str("_exit") {
            return ReviewStep::Exit;
        }
        let correct = match self.try_exam(answer) {
            None => {
                return ReviewStep::Unreadable;
            },
            Some(correct) => correct,
        };
        let update = if correct {
            Some(self.set_word_reviewed_once())
        } else {
            None
        };
        let finished = self.is_finished();
        proof {
            let p = self.position();
            let len = self.task_list().len();
            assert(position_after_answers(p, len, 0) == p);
            assert(position_after_answers(p, len, 1) == if p == len - 1 { p } else { p + 1 });
        }
        if !finished {
            assert(self.cursor < self.tasks.len());
            self.forward();
        }
        ReviewStep::Answered { correct, update, finished }
    }
}

} // verus!
