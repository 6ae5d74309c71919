use vstd::prelude::*;
use crate::text::{
    ascii_upper, chars_of, is_ascii_letter, is_letter_key, is_sorted, is_upper_letter,
    sorted_chars, spaced, spaced_string, to_ascii_upper, upper_of, uppercase,
};

verus! {

/// Failures after which a game that is not won is lost.
pub const MAX_FAILURES: u8 = 6;

/// The character shown in place of a letter not yet found.
pub const PLACEHOLDER: char = '_';

/// The word played when none is given.
pub const DEFAULT_WORD: &'static str = "Masupilami";

/// How wrong and repeated guesses are charged.
#[derive(Clone, Copy, Debug, PartialEq, Eq, Structural)]
pub enum GuessPolicy {
    /// A letter costs a failure at most once: the first time it is typed
    /// while it is not hidden in the word. Typing a letter again is free.
    SetBased,
    /// Every letter that does not uncover a hidden one costs a failure,
    /// letters already found included.
    Accumulating,
}

#[derive(Clone, Copy, Debug, PartialEq, Eq, Structural)]
pub enum GameStatus {
    Playing,
    Won,
    Lost,
}

/// The abstract state of a game.
#[verifier::ext_equal]
pub struct Puzzle {
    /// The word to find, upper-cased.
    pub target: Seq<char>,
    /// The letters of the word not found yet.
    pub unrevealed: Set<char>,
    /// The letters typed so far (under `Accumulating`: those found).
    pub guessed: Set<char>,
    pub failures: nat,
    pub policy: GuessPolicy,
}

/// The letters to find in `word`: its upper-case ASCII letters. Any other
/// character of the word is shown from the start.
pub open spec fn letters_of(word: Seq<char>) -> Set<char> {
    Set::new(|c: char| word.contains(c) && is_upper_letter(c))
}

pub open spec fn initial_puzzle(target: Seq<char>, policy: GuessPolicy) -> Puzzle {
    Puzzle {
        target,
        unrevealed: letters_of(target),
        guessed: Set::empty(),
        failures: 0,
        policy,
    }
}

/// What holds of every state a game can reach.
pub open spec fn is_valid(p: Puzzle) -> bool {
    &&& p.unrevealed.subset_of(letters_of(p.target))
    &&& forall|c: char| #[trigger] p.guessed.contains(c) ==> is_upper_letter(c)
    &&& forall|c: char| #[trigger] p.guessed.contains(c) ==> !p.unrevealed.contains(c)
    &&& p.failures <= MAX_FAILURES
}

/// Won once every letter is found, whatever the failures; otherwise lost
/// once the failures reach the maximum.
pub open spec fn status_of(p: Puzzle) -> GameStatus {
    if p.unrevealed.is_empty() {
        GameStatus::Won
    } else if p.failures >= MAX_FAILURES {
        GameStatus::Lost
    } else {
        GameStatus::Playing
    }
}

/// How much of the illustration is drawn: the failures, capped at the
/// maximum.
pub open spec fn stage_of(failures: nat) -> nat {
    if failures < MAX_FAILURES {
        failures
    } else {
        MAX_FAILURES as nat
    }
}

/// The state after one key. Keys that are not ASCII letters, and every key
/// once the game is over, change nothing. A letter is taken in upper case.
pub open spec fn after_guess(p: Puzzle, key: char) -> Puzzle {
    if !is_ascii_letter(key) || status_of(p) != GameStatus::Playing {
        p
    } else {
        let c = ascii_upper(key);
        match p.policy {
            GuessPolicy::SetBased => Puzzle {
                target: p.target,
                unrevealed: p.unrevealed.remove(c),
                guessed: p.guessed.insert(c),
                failures: if !p.guessed.contains(c) && !p.unrevealed.contains(c) {
                    p.failures + 1
                } else {
                    p.failures
                },
                policy: p.policy,
            },
            GuessPolicy::Accumulating => if p.unrevealed.contains(c) {
                Puzzle {
                    target: p.target,
                    unrevealed: p.unrevealed.remove(c),
                    guessed: p.guessed.insert(c),
                    failures: p.failures,
                    policy: p.policy,
                }
            } else {
                Puzzle {
                    target: p.target,
                    unrevealed: p.unrevealed,
                    guessed: p.guessed,
                    failures: p.failures + 1,
                    policy: p.policy,
                }
            },
        }
    }
}

/// The state after a sequence of keys, in order.
pub open spec fn after_guesses(p: Puzzle, keys: Seq<char>) -> Puzzle
    decreases keys.len(),
{
    if keys.len() == 0 {
        p
    } else {
        after_guess(after_guesses(p, keys.drop_last()), keys.last())
    }
}

/// `word` with each character of `hidden` replaced by the placeholder.
pub open spec fn masked(word: Seq<char>, hidden: Set<char>) -> Seq<char> {
    word.map_values(|c: char| if hidden.contains(c) { PLACEHOLDER } else { c })
}

/// `s` lists the characters of `set` in ascending order, each once.
pub open spec fn lists_in_order(s: Seq<char>, set: Set<char>) -> bool {
    &&& is_sorted(s)
    &&& s.no_duplicates()
    &&& s.to_set() == set
}

/// A new game is in a valid state.
pub proof fn lemma_initial_valid(target: Seq<char>, policy: GuessPolicy)
    ensures
        is_valid(initial_puzzle(target, policy)),
{
}

/// One key keeps a valid state valid, keeps the word, and never lowers the
/// failures.
pub proof fn lemma_guess_keeps_valid(p: Puzzle, key: char)
    requires
        is_valid(p),
    ensures
        is_valid(after_guess(p, key)),
        after_guess(p, key).target == p.target,
        after_guess(p, key).policy == p.policy,
        after_guess(p, key).failures >= p.failures,
{
}

/// Keys played one after the other: playing `keys` then `more` is playing
/// their concatenation.
pub proof fn lemma_guesses_concat(p: Puzzle, keys: Seq<char>, more: Seq<char>)
    ensures
        after_guesses(p, keys + more) == after_guesses(after_guesses(p, keys), more),
    decreases more.len(),
{
    if more.len() == 0 {
        assert(keys + more =~= keys);
    } else {
        assert((keys + more).drop_last() =~= keys + more.drop_last());
        lemma_guesses_concat(p, keys, more.drop_last());
    }
}

/// Whatever keys are played, a valid state stays valid: the letters not
/// found are always letters of the word, and the failures never go down.
pub proof fn lemma_guesses_keep_valid(p: Puzzle, keys: Seq<char>)
    requires
        is_valid(p),
    ensures
        is_valid(after_guesses(p, keys)),
        after_guesses(p, keys).target == p.target,
        after_guesses(p, keys).policy == p.policy,
        after_guesses(p, keys).failures >= p.failures,
    decreases keys.len(),
{
    if keys.len() > 0 {
        lemma_guesses_keep_valid(p, keys.drop_last());
        lemma_guess_keeps_valid(after_guesses(p, keys.drop_last()), keys.last());
    }
}

/// From a new game, whatever keys are played, the letters not found are
/// letters of the word; and playing more keys never lowers the failures.
pub proof fn lemma_unrevealed_within_target(
    word: Seq<char>,
    policy: GuessPolicy,
    keys: Seq<char>,
    more: Seq<char>,
)
    ensures
        after_guesses(initial_puzzle(word, policy), keys).unrevealed.subset_of(letters_of(word)),
        after_guesses(initial_puzzle(word, policy), keys).failures <= after_guesses(
            initial_puzzle(word, policy),
            keys + more,
        ).failures,
{
    let p = initial_puzzle(word, policy);
    lemma_initial_valid(word, policy);
    lemma_guesses_keep_valid(p, keys);
    lemma_guesses_concat(p, keys, more);
    lemma_guesses_keep_valid(after_guesses(p, keys), more);
}

/// A game is won exactly when no letter is left to find, whatever the
/// failures.
pub proof fn lemma_won_iff_all_found(p: Puzzle)
    ensures
        (status_of(p) == GameStatus::Won) <==> p.unrevealed.is_empty(),
{
}

/// A game is lost exactly when the failures reach the maximum while some
/// letter is left to find.
pub proof fn lemma_lost_iff_out_of_tries(p: Puzzle)
    ensures
        (status_of(p) == GameStatus::Lost) <==> (p.failures >= MAX_FAILURES
            && !p.unrevealed.is_empty()),
{
}

/// The reveal stage never goes down as failures grow, and stops at the
/// maximum.
pub proof fn lemma_stage_monotone(f1: nat, f2: nat)
    requires
        f1 <= f2,
    ensures
        stage_of(f1) <= stage_of(f2),
        stage_of(f2) <= MAX_FAILURES,
        f2 >= MAX_FAILURES ==> stage_of(f2) == MAX_FAILURES,
{
}

/// Under the set-based policy, typing again a letter already typed changes
/// nothing, however often it is repeated: a found letter is never charged.
pub proof fn lemma_repeat_is_free(p: Puzzle, key: char, times: nat)
    requires
        is_valid(p),
        p.policy == GuessPolicy::SetBased,
        is_ascii_letter(key),
        p.guessed.contains(ascii_upper(key)),
    ensures
        after_guesses(p, Seq::new(times, |i: int| key)) == p,
    decreases times,
{
    let keys = Seq::new(times, |i: int| key);
    if times > 0 {
        assert(keys.drop_last() =~= Seq::new((times - 1) as nat, |i: int| key));
        lemma_repeat_is_free(p, key, (times - 1) as nat);
        let c = ascii_upper(key);
        assert(p.unrevealed.remove(c) =~= p.unrevealed);
        assert(p.guessed.insert(c) =~= p.guessed);
        assert(after_guess(p, key) =~= p);
    }
}

/// Keys other than ASCII letters change nothing.
pub proof fn lemma_non_letter_ignored(p: Puzzle, key: char)
    requires
        !is_ascii_letter(key),
    ensures
        after_guess(p, key) == p,
{
}

/// Once every letter is found, the masked word is the word itself.
pub proof fn lemma_mask_all_found(p: Puzzle)
    requires
        p.unrevealed.is_empty(),
    ensures
        masked(p.target, p.unrevealed) == p.target,
{
    assert(masked(p.target, p.unrevealed) =~= p.target);
}

fn contains_char(v: &Vec<char>, c: char) -> (r: bool)
    ensures
        r == v@.contains(c),
{
    let mut i: usize = 0;
    while i < v.len()
        invariant
            i <= v@.len(),
            forall|j: int| 0 <= j < i ==> v@[j] != c,
        decreases v@.len() - i,
    {
        if v[i] == c {
            return true;
        }
        i = i + 1;
    }
    false
}

/// Removes `c` from a list of distinct characters.
fn remove_char(v: &mut Vec<char>, c: char)
    requires
        old(v)@.no_duplicates(),
    ensures
        final(v)@.no_duplicates(),
        final(v)@.to_set() == old(v)@.to_set().remove(c),
{
    let mut r: Vec<char> = Vec::new();
    let mut i: usize = 0;
    while i < v.len()
        invariant
            i <= v@.len(),
            v@.no_duplicates(),
            r@.no_duplicates(),
            forall|x: char| r@.contains(x) <==> (v@.take(i as int).contains(x) && x != c),
        decreases v@.len() - i,
    {
        let x = v[i];
        let ghost t0 = v@.take(i as int);
        let ghost t1 = v@.take(i + 1);
        let ghost r0 = r@;
        proof {
            assert forall|y: char| r0.contains(y) <==> (t0.contains(y) && y != c) by {
                assert(r@.contains(y) <==> (v@.take(i as int).contains(y) && y != c));
            }
            assert forall|y: char| t1.contains(y) <==> (t0.contains(y)
                || y == x) by {
                if t1.contains(y) {
                    let j = choose|j: int| 0 <= j < i + 1 && t1[j] == y;
                    if j < i {
                        assert(t0[j] == y);
                    }
                }
                if t0.contains(y) {
                    let j = choose|j: int| 0 <= j < i && t0[j] == y;
                    assert(t1[j] == y);
                }
                if y == x {
                    assert(t1[i as int] == y);
                }
            }
            if t0.contains(x) {
                let j = choose|j: int| 0 <= j < i && t0[j] == x;
                assert(v@[j] == v@[i as int]);
            }
        }
        if x != c {
            r.push(x);
            proof {
                assert forall|y: char| r@.contains(y) <==> (r0.contains(y) || y == x) by {
                    if r@.contains(y) {
                        let j = choose|j: int| 0 <= j < r@.len() && r@[j] == y;
                        if j < r0.len() {
                            assert(r0[j] == y);
                        }
                    }
                    if r0.contains(y) {
                        let j = choose|j: int| 0 <= j < r0.len() && r0[j] == y;
                        assert(r@[j] == y);
                    }
                    if y == x {
                        assert(r@[r0.len() as int] == y);
                    }
                }
                assert(!r0.contains(x));
                assert forall|a: int, b: int| 0 <= a < b < r@.len() implies r@[a] != r@[b] by {
                    if b == r0.len() {
                        assert(r0[a] == r@[a]);
                    } else {
                        assert(r0[a] != r0[b]);
                    }
                }
            }
        }
        assert forall|y: char| r@.contains(y) <==> (t1.contains(y) && y != c) by {}
        i = i + 1;
    }
    proof {
        assert(v@.take(v@.len() as int) =~= v@);
        assert(r@.to_set() =~= v@.to_set().remove(c));
    }
    *v = r;
}

/// Two sequences with the same multiset hold the same characters, and the
/// second has no duplicates where the first has none.
proof fn lemma_same_multiset(a: Seq<char>, b: Seq<char>)
    requires
        a.to_multiset() == b.to_multiset(),
        a.no_duplicates(),
    ensures
        b.to_set() == a.to_set(),
        b.no_duplicates(),
{
    a.to_multiset_ensures();
    b.to_multiset_ensures();
    a.lemma_multiset_has_no_duplicates();
    b.lemma_multiset_has_no_duplicates_conv();
    assert forall|x: char| #[trigger] b.to_set().contains(x) <==> a.to_set().contains(x) by {
        assert(b.contains(x) <==> b.to_multiset().count(x) > 0);
        assert(a.contains(x) <==> a.to_multiset().count(x) > 0);
    }
    assert(b.to_set() =~= a.to_set());
}

/// A game of hangman: the word, the letters still hidden, the letters typed
/// and the failures so far.
pub struct App {
    word: Vec<char>,
    fails: u8,
    hidden_letters: Vec<char>,
    typed_letters: Vec<char>,
    policy: GuessPolicy,
}

impl View for App {
    type V = Puzzle;

    closed spec fn view(&self) -> Puzzle {
        Puzzle {
            target: self.word@,
            unrevealed: self.hidden_letters@.to_set(),
            guessed: self.typed_letters@.to_set(),
            failures: self.fails as nat,
            policy: self.policy,
        }
    }
}

impl App {
    pub closed spec fn wf(&self) -> bool {
        &&& is_valid(self@)
        &&& self.hidden_letters@.no_duplicates()
        &&& self.typed_letters@.no_duplicates()
    }

    /// A game on `word`, upper-cased, charging guesses under the set-based
    /// policy.
    pub fn new(word: String) -> (r: App)
        ensures
            r.wf(),
            r@ == initial_puzzle(upper_of(word@), GuessPolicy::SetBased),
    {
        App::with_policy(word, GuessPolicy::SetBased)
    }

    /// A game on `word`, upper-cased, charging guesses under `policy`.
    pub fn with_policy(word: String, policy: GuessPolicy) -> (r: App)
        ensures
            r.wf(),
            r@ == initial_puzzle(upper_of(word@), policy),
    {
        let upper = uppercase(word.as_str());
        let chars = chars_of(upper.as_str());
        let mut hidden: Vec<char> = Vec::new();
        let n = chars.len();
        let mut i: usize = 0;
        while i < n
            invariant
                n == chars@.len(),
                i <= n,
                hidden@.no_duplicates(),
                hidden@.to_set() == letters_of(chars@.take(i as int)),
            decreases n - i,
        {
            let c = chars[i];
            let ghost h0 = hidden@;
            let ghost t0 = chars@.take(i as int);
            let ghost t1 = chars@.take(i + 1);
            proof {
                assert(t1 =~= t0.push(c));
                assert forall|y: char| t1.contains(y) <==> (t0.contains(y) || y == c) by {
                    if t1.contains(y) {
                        let j = choose|j: int| 0 <= j < t1.len() && t1[j] == y;
                        if j < t0.len() {
                            assert(t0[j] == y);
                        }
                    }
                    if t0.contains(y) {
                        let j = choose|j: int| 0 <= j < t0.len() && t0[j] == y;
                        assert(t1[j] == y);
                    }
                    if y == c {
                        assert(t1[t0.len() as int] == y);
                    }
                }
            }
            let upper = 'A' <= c && c <= 'Z';
            let known = contains_char(&hidden, c);
            if upper && !known {
                hidden.push(c);
                proof {
                    assert forall|y: char| hidden@.contains(y) <==> (h0.contains(y) || y == c) by {
                        if hidden@.contains(y) {
                            let j = choose|j: int| 0 <= j < hidden@.len() && hidden@[j] == y;
                            if j < h0.len() {
                                assert(h0[j] == y);
                            }
                        }
                        if h0.contains(y) {
                            let j = choose|j: int| 0 <= j < h0.len() && h0[j] == y;
                            assert(hidden@[j] == y);
                        }
                        if y == c {
                            assert(hidden@[h0.len() as int] == y);
                        }
                    }
                    assert forall|a: int, b: int| 0 <= a < b < hidden@.len() implies hidden@[a]
                        != hidden@[b] by {
                        if b == h0.len() {
                            assert(h0[a] == hidden@[a]);
                        } else {
                            assert(h0[a] != h0[b]);
                        }
                    }
                }
            }
            proof {
                assert(h0.to_set() == letters_of(t0));
                assert forall|y: char| #[trigger] hidden@.contains(y) <==> letters_of(t1).contains(y)
                    by {
                    assert(h0.to_set().contains(y) <==> letters_of(t0).contains(y));
                }
                assert(hidden@.to_set() =~= letters_of(t1));
            }
            i = i + 1;
        }
        proof {
            assert(chars@.take(n as int) =~= chars@);
        }
        let r = App {
            word: chars,
            fails: 0,
            hidden_letters: hidden,
            typed_letters: Vec::new(),
            policy,
        };
        proof {
            assert(r@.guessed =~= Set::<char>::empty());
            assert(r@ =~= initial_puzzle(upper_of(word@), policy));
        }
        r
    }

    /// Whether the game is running, won or lost.
    pub fn evaluate(&self) -> (r: GameStatus)
        requires
            self.wf(),
        ensures
            r == status_of(self@),
    {
        if self.hidden_letters.len() == 0 {
            proof {
                assert(self@.unrevealed =~= Set::<char>::empty());
            }
            GameStatus::Won
        } else {
            proof {
                assert(self@.unrevealed.contains(self.hidden_letters@[0]));
            }
            if self.fails >= MAX_FAILURES {
                GameStatus::Lost
            } else {
                GameStatus::Playing
            }
        }
    }

    /// Takes one key typed by the player: a letter is guessed in upper case;
    /// any other key, and any key after the game is over, changes nothing.
    pub fn apply_guess(&mut self, key: char)
        requires
            old(self).wf(),
        ensures
            final(self).wf(),
            final(self)@ == after_guess(old(self)@, key),
    {
        if !is_letter_key(key) {
            return;
        }
        match self.evaluate() {
            GameStatus::Playing => {},
            _ => {
                return;
            },
        }
        let c = to_ascii_upper(key);
        assert(is_upper_letter(c));
        let ghost p0 = self@;
        let ghost typed0 = self.typed_letters@;
        let hidden = contains_char(&self.hidden_letters, c);
        let typed = contains_char(&self.typed_letters, c);
        let charged = match self.policy {
            GuessPolicy::SetBased => !typed && !hidden,
            GuessPolicy::Accumulating => !hidden,
        };
        let reveals = match self.policy {
            GuessPolicy::SetBased => true,
            GuessPolicy::Accumulating => hidden,
        };
        if charged {
            self.fails = self.fails + 1;
        }
        if reveals {
            remove_char(&mut self.hidden_letters, c);
            if !typed {
                self.typed_letters.push(c);
                proof {
                    assert forall|y: char| #[trigger] self.typed_letters@.contains(y) <==> (
                    typed0.contains(y) || y == c) by {
                        if self.typed_letters@.contains(y) {
                            let j = choose|j: int|
                                0 <= j < self.typed_letters@.len() && self.typed_letters@[j] == y;
                            if j < typed0.len() {
                                assert(typed0[j] == y);
                            }
                        }
                        if typed0.contains(y) {
                            let j = choose|j: int| 0 <= j < typed0.len() && typed0[j] == y;
                            assert(self.typed_letters@[j] == y);
                        }
                        if y == c {
                            assert(self.typed_letters@[typed0.len() as int] == y);
                        }
                    }
                    assert forall|a: int, b: int|
                        0 <= a < b < self.typed_letters@.len() implies self.typed_letters@[a]
                        != self.typed_letters@[b] by {
                        if b == typed0.len() {
                            assert(typed0[a] == self.typed_letters@[a]);
                        } else {
                            assert(typed0[a] != typed0[b]);
                        }
                    }
                    assert(self@.guessed =~= p0.guessed.insert(c));
                }
            } else {
                assert(self@.guessed =~= p0.guessed.insert(c));
            }
        }
        assert(self@ =~= after_guess(p0, key));
    }

    /// The reveal stage: the failures, capped at the maximum.
    pub fn reveal_stage(&self) -> (r: u8)
        ensures
            r as nat == stage_of(self@.failures),
    {
        if self.fails < MAX_FAILURES {
            self.fails
        } else {
            MAX_FAILURES
        }
    }
    /// The letters typed so far, in alphabetical order.
    pub fn guessed_letters(&self) -> (r: Vec<char>)
        requires
            self.wf(),
        ensures
            lists_in_order(r@, self@.guessed),
    {
        let r = sorted_chars(&self.typed_letters);
        proof {
            lemma_same_multiset(self.typed_letters@, r@);
        }
        r
    }

    /// The letters not found yet, in alphabetical order.
    pub fn unrevealed_letters(&self) -> (r: Vec<char>)
        requires
            self.wf(),
        ensures
            lists_in_order(r@, self@.unrevealed),
    {
        let r = sorted_chars(&self.hidden_letters);
        proof {
            lemma_same_multiset(self.hidden_letters@, r@);
        }
        r
    }

    /// The typed letters as displayed: in alphabetical order, separated by
    /// spaces.
    pub fn typed_letters_line(&self) -> (r: String)
        requires
            self.wf(),
        ensures
            exists|s: Seq<char>| lists_in_order(s, self@.guessed) && r@ == spaced(s),
    {
        let letters = self.guessed_letters();
        spaced_string(&letters)
    }

    /// The word with each letter not found yet replaced by the placeholder.
    pub fn masked_chars(&self) -> (r: Vec<char>)
        ensures
            r@ == masked(self@.target, self@.unrevealed),
    {
        let n = self.word.len();
        let mut r: Vec<char> = Vec::with_capacity(n);
        let mut i: usize = 0;
        while i < n
            invariant
                n == self.word@.len(),
                i <= n,
                r@ =~= masked(self@.target, self@.unrevealed).take(i as int),
            decreases n - i,
        {
            let c = self.word[i];
            if contains_char(&self.hidden_letters, c) {
                r.push(PLACEHOLDER);
            } else {
                r.push(c);
            }
            i = i + 1;
        }
        r
    }

    /// The masked word as displayed: its characters separated by spaces.
    pub fn masked_word(&self) -> (r: String)
        ensures
            r@ == spaced(masked(self@.target, self@.unrevealed)),
    {
        let chars = self.masked_chars();
        spaced_string(&chars)
    }

    /// The word to find, upper-cased.
    pub fn target(&self) -> (r: Vec<char>)
        ensures
            r@ == self@.target,
    {
        self.word.clone()
    }

    pub fn failures(&self) -> (r: u8)
        ensures
            r as nat == self@.failures,
    {
        self.fails
    }

    pub fn policy(&self) -> (r: GuessPolicy)
        ensures
            r == self@.policy,
    {
        self.policy
    }
}

impl Default for App {
    /// A set-based game on the default word.
    fn default() -> (r: App)
        ensures
            r.wf(),
            r@ == initial_puzzle(upper_of(DEFAULT_WORD@), GuessPolicy::SetBased),
    {
        App::new(String::from_str(DEFAULT_WORD))
    }
}

} // verus!
