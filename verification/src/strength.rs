//! How good a password has to be.
//!
//! Length is what matters and nothing else is required. Forcing a symbol and a
//! digit produces `Password1!`, which is worse than four unrelated words and
//! harder to remember. The rule here is therefore a length floor, with a
//! passphrase encouraged rather than demanded.
//!
//! Enforced when a vault is created, because that is the only moment a
//! password can be chosen. An existing vault cannot be made to have a better
//! one retroactively.

use crate::error::{Error, ErrorView};
use crate::text::{chars_of, decimal_text, join3};
use vstd::prelude::*;

verus! {

/// Shortest password accepted for a new vault.
///
/// Fifteen characters, which four short words and their separators reach
/// comfortably, and which a single word does not.
pub const MIN_LENGTH: usize = 15;

/// A word count at which a dash-separated phrase is worth calling strong.
pub const PASSPHRASE_WORDS: usize = 4;

/// How many distinct characters a password needs.
///
/// `aaaaaaaaaaaaaaaaaaaa` clears a length floor and is worthless. So does
/// `111111111111111`, and so does any phrase repeated to length. Length is a
/// good proxy for strength only when the characters are not all the same few.
pub const MIN_DISTINCT_CHARS: usize = 6;

/// Longest run of one repeated character that is tolerated.
pub const MAX_RUN: usize = 4;

/// What was made of a proposed password.
#[derive(Debug, Clone, PartialEq, Eq)]
pub enum Strength {
    /// Below the floor. Refused.
    TooShort { have: usize, need: usize },
    /// Long enough, but built from too few different characters, or from one
    /// short piece repeated. Refused.
    TooRepetitive { reason: &'static str },
    /// Long enough, but a single run of characters.
    Acceptable,
    /// A phrase of several separated words.
    Strong { words: usize },
}

/// A verdict on a password, over mathematical values.
pub enum StrengthView {
    TooShort { have: nat, need: nat },
    TooRepetitive { reason: Seq<char> },
    Acceptable,
    Strong { words: nat },
}

impl View for Strength {
    type V = StrengthView;

    open spec fn view(&self) -> StrengthView {
        match self {
            Strength::TooShort { have, need } => StrengthView::TooShort {
                have: *have as nat,
                need: *need as nat,
            },
            Strength::TooRepetitive { reason } => StrengthView::TooRepetitive { reason: reason@ },
            Strength::Acceptable => StrengthView::Acceptable,
            Strength::Strong { words } => StrengthView::Strong { words: *words as nat },
        }
    }
}

/// A character that ends a word of a phrase.
pub open spec fn is_separator(c: char) -> bool {
    c == '-' || c == ' ' || c == '_' || c == '.'
}

/// A piece of a phrase that is worth calling a word: at least two bytes long
/// when stored.
pub open spec fn is_word(piece: Seq<char>) -> bool {
    vstd::utf8::encode_utf8(piece).len() >= 2
}

/// The words of a phrase, in order.
pub open spec fn words_of(password: Seq<char>) -> Seq<Seq<char>> {
    crate::text::pieces(password, |c: char| is_separator(c)).filter(|p: Seq<char>| is_word(p))
}

/// The whole text is its first `unit` characters over and over, at least twice.
pub open spec fn repeats_unit(s: Seq<char>, unit: int) -> bool {
    &&& 0 < unit
    &&& 2 * unit <= s.len()
    &&& s.len() as int % unit == 0
    &&& forall|i: int| unit <= i < s.len() ==> #[trigger] s[i] == s[i % unit]
}

/// The whole text is one shorter piece repeated.
pub open spec fn is_repetition(s: Seq<char>) -> bool {
    exists|unit: int| repeats_unit(s, unit)
}

/// From `at` on, the text shows one character `MAX_RUN + 1` times.
pub open spec fn run_at(s: Seq<char>, at: int) -> bool {
    &&& 0 <= at
    &&& at + MAX_RUN < s.len()
    &&& forall|i: int| at <= i <= at + MAX_RUN ==> s[i] == s[at]
}

/// Somewhere one character stands more than `MAX_RUN` times in a row.
pub open spec fn has_long_run(s: Seq<char>) -> bool {
    exists|at: int| run_at(s, at)
}

/// What is made of a proposed password.
pub open spec fn assessment(password: Seq<char>) -> StrengthView {
    if password.len() < MIN_LENGTH {
        StrengthView::TooShort { have: password.len(), need: MIN_LENGTH as nat }
    } else if password.to_set().len() < MIN_DISTINCT_CHARS {
        StrengthView::TooRepetitive { reason: "it is built from too few different characters"@ }
    } else if is_repetition(password) {
        StrengthView::TooRepetitive { reason: "it is one short piece repeated"@ }
    } else if has_long_run(password) {
        StrengthView::TooRepetitive { reason: "it contains a long run of one repeated character"@ }
    } else if words_of(password).len() >= PASSPHRASE_WORDS {
        StrengthView::Strong { words: words_of(password).len() }
    } else {
        StrengthView::Acceptable
    }
}

impl StrengthView {
    /// Whether a password with this verdict may be used.
    pub open spec fn acceptable(self) -> bool {
        !(self is TooShort) && !(self is TooRepetitive)
    }

    /// The sentence shown to the person choosing.
    pub open spec fn sentence(self) -> Seq<char> {
        match self {
            StrengthView::TooShort { have, need } => "Too short: "@ + crate::text::decimal(have)
                + " characters, and "@ + crate::text::decimal(need)
                + " are needed. Four or five unrelated words joined by dashes is the easiest way to get there, for example correct-horse-battery-staple."@,
            StrengthView::TooRepetitive { reason } => "Long enough, but "@ + reason
                + ". Length only helps when the characters are not all the same few. Four or five unrelated words joined by dashes is the easiest way to a password that is genuinely hard to guess, for example correct-horse-battery-staple."@,
            StrengthView::Acceptable =>
                "Long enough. A phrase of several unrelated words joined by dashes would be easier to remember and harder to guess."@,
            StrengthView::Strong { words } => "A phrase of "@ + crate::text::decimal(words)
                + " words. Easy to remember, and long enough that guessing it is not worth attempting."@,
        }
    }
}

impl Strength {
    /// Whether a password with this verdict may be used.
    pub fn is_acceptable(&self) -> (r: bool)
        ensures
            r == self@.acceptable(),
    {
        match self {
            Strength::TooShort { .. } => false,
            Strength::TooRepetitive { .. } => false,
            Strength::Acceptable => true,
            Strength::Strong { .. } => true,
        }
    }

    /// A sentence to show the person choosing.
    pub fn advice(&self) -> (r: String)
        ensures
            r@ == self@.sentence(),
    {
        match self {
            Strength::TooShort { have, need } => {
                let mut r = join3(
                    "Too short: ",
                    decimal_text(*have as u64).as_str(),
                    " characters, and ",
                );
                r.append(decimal_text(*need as u64).as_str());
                r.append(
                    " are needed. Four or five unrelated words joined by dashes is the easiest way to get there, for example correct-horse-battery-staple.",
                );
                r
            },
            Strength::TooRepetitive { reason } => join3(
                "Long enough, but ",
                reason,
                ". Length only helps when the characters are not all the same few. Four or five unrelated words joined by dashes is the easiest way to a password that is genuinely hard to guess, for example correct-horse-battery-staple.",
            ),
            Strength::Acceptable =>
                "Long enough. A phrase of several unrelated words joined by dashes would be easier to remember and harder to guess.".to_owned(),
            Strength::Strong { words } => join3(
                "A phrase of ",
                decimal_text(*words as u64).as_str(),
                " words. Easy to remember, and long enough that guessing it is not worth attempting.",
            ),
        }
    }
}

/// Text is at least two bytes long exactly when it has two characters, or one
/// that is not ASCII.
proof fn lemma_is_word(piece: Seq<char>)
    ensures
        is_word(piece) <==> piece.len() >= 2 || (piece.len() == 1 && piece[0] as u32 >= 0x80),
{
    reveal_with_fuel(vstd::utf8::encode_utf8, 3);
    if piece.len() >= 1 {
        let rest = piece.drop_first();
        assert(vstd::utf8::encode_utf8(piece) == vstd::utf8::encode_scalar(piece[0] as u32) + vstd::utf8::encode_utf8(rest));
        if rest.len() >= 1 {
            assert(vstd::utf8::encode_utf8(rest) == vstd::utf8::encode_scalar(rest[0] as u32) + vstd::utf8::encode_utf8(
                rest.drop_first(),
            ));
        }
    }
}

/// Counts the words in a separated phrase.
pub fn word_count(password: &Vec<char>) -> (r: usize)
    ensures
        r == words_of(password@).len(),
{
    let ghost cut = |c: char| is_separator(c);
    let ghost keep = |p: Seq<char>| is_word(p);
    let mut closed: usize = 0;
    let mut size: usize = 0;
    let mut wide: bool = false;
    let mut i: usize = 0;
    proof {
        crate::text::lemma_pieces_nonempty(password@.take(0), cut);
        reveal_with_fuel(Seq::filter, 2);
    }
    while i < password.len()
        invariant
            i <= password@.len(),
            cut == (|c: char| is_separator(c)),
            keep == (|p: Seq<char>| is_word(p)),
            crate::text::pieces(password@.take(i as int), cut).len() > 0,
            size == crate::text::pieces(password@.take(i as int), cut).last().len(),
            size >= 1 ==> wide == (crate::text::pieces(password@.take(i as int), cut).last()[0] as u32 >= 0x80),
            closed == crate::text::pieces(password@.take(i as int), cut).drop_last().filter(keep).len(),
            closed + size <= i,
        decreases password@.len() - i,
    {
        let c = password[i];
        let ghost before = crate::text::pieces(password@.take(i as int), cut);
        proof {
            assert(password@.take(i + 1).drop_last() =~= password@.take(i as int));
            lemma_is_word(before.last());
            reveal(Seq::filter);
            assert(before.push(Seq::empty()).drop_last() =~= before);
            assert(before.drop_last().push(before.last().push(c)).drop_last() =~= before.drop_last());
        }
        if c == '-' || c == ' ' || c == '_' || c == '.' {
            if size >= 2 || (size == 1 && wide) {
                closed += 1;
            }
            size = 0;
        } else {
            if size == 0 {
                wide = (c as u32) >= 0x80;
            }
            size += 1;
        }
        i += 1;
    }
    proof {
        assert(password@.take(i as int) =~= password@);
        lemma_is_word(crate::text::pieces(password@, cut).last());
        reveal(Seq::filter);
    }
    if size >= 2 || (size == 1 && wide) {
        closed += 1;
    }
    closed
}

/// Whether the whole password is one short piece repeated.
///
/// Catches `passwordpasswordpassword` and `abababababababab`, which a length
/// floor and a distinct-character count both wave through.
pub fn is_repeated_unit(chars: &Vec<char>) -> (r: bool)
    ensures
        r == is_repetition(chars@),
{
    let n: usize = chars.len();
    let mut unit: usize = 1;
    while unit <= n / 2
        invariant
            n == chars@.len(),
            1 <= unit <= n / 2 + 1,
            forall|u: int| 0 < u < unit ==> !repeats_unit(chars@, u),
        decreases n / 2 + 1 - unit,
    {
        if n % unit == 0 {
            let mut i: usize = unit;
            let mut same: bool = true;
            while i < n && same
                invariant
                    n == chars@.len(),
                    1 <= unit <= i <= n,
                    same ==> forall|j: int| unit <= j < i ==> #[trigger] chars@[j] == chars@[j % unit as int],
                    !same ==> !repeats_unit(chars@, unit as int),
                decreases n - i,
            {
                assert(i % unit < unit) by (nonlinear_arith)
                    requires
                        unit >= 1,
                ;
                if chars[i] != chars[i % unit] {
                    same = false;
                }
                i += 1;
            }
            if same {
                assert(repeats_unit(chars@, unit as int));
                return true;
            }
        }
        unit += 1;
    }
    assert forall|u: int| !repeats_unit(chars@, u) by {}
    false
}

/// Whether a character is among some characters.
fn among(seen: &Vec<char>, c: char) -> (r: bool)
    ensures
        r == seen@.contains(c),
{
    let mut i: usize = 0;
    while i < seen.len()
        invariant
            i <= seen@.len(),
            forall|j: int| 0 <= j < i ==> seen@[j] != c,
        decreases seen@.len() - i,
    {
        if seen[i] == c {
            return true;
        }
        i += 1;
    }
    false
}

/// Whether a text has at least `MIN_DISTINCT_CHARS` different characters.
fn varied(chars: &Vec<char>) -> (r: bool)
    ensures
        r == (chars@.to_set().len() >= MIN_DISTINCT_CHARS),
{
    let mut seen: Vec<char> = Vec::new();
    let mut i: usize = 0;
    while i < chars.len()
        invariant
            i <= chars@.len(),
            seen@.no_duplicates(),
            seen@.to_set() =~= chars@.take(i as int).to_set(),
            seen@.len() < MIN_DISTINCT_CHARS,
        decreases chars@.len() - i,
    {
        let c = chars[i];
        proof {
            let (a, b) = (chars@.take(i as int), chars@.take(i + 1));
            assert(b =~= a.push(c));
            assert forall|x: char| b.to_set().contains(x) == a.to_set().insert(c).contains(x) by {
                vstd::seq_lib::lemma_seq_contains_after_push(a, c, x);
                assert(b.to_set().contains(x) == b.contains(x));
                assert(a.to_set().contains(x) == a.contains(x));
            }
            assert(b.to_set() =~= a.to_set().insert(c));
            assert(seen@.to_set().contains(c) == seen@.contains(c));
        }
        if !among(&seen, c) {
            let ghost before = seen@;
            seen.push(c);
            proof {
                assert forall|x: char| seen@.contains(x) == (before.contains(x) || x == c) by {
                    vstd::seq_lib::lemma_seq_contains_after_push(before, c, x);
                }
                assert(seen@.to_set() =~= before.to_set().insert(c));
            }
            if seen.len() >= MIN_DISTINCT_CHARS {
                proof {
                    seen@.unique_seq_to_set();
                    assert(seen@.to_set().subset_of(chars@.to_set())) by {
                        assert forall|x: char| seen@.to_set().contains(x) implies chars@.to_set().contains(x) by {
                            let prefix = chars@.take(i + 1);
                            assert(prefix.contains(x));
                            let k = choose|k: int| 0 <= k < prefix.len() && prefix[k] == x;
                            assert(chars@[k] == x);
                        }
                    }
                    vstd::set_lib::lemma_len_subset(seen@.to_set(), chars@.to_set());
                }
                return true;
            }
        } else {
            assert(chars@.take(i as int).to_set().insert(c) =~= chars@.take(i as int).to_set());
        }
        i += 1;
    }
    proof {
        assert(chars@.take(i as int) =~= chars@);
        seen@.unique_seq_to_set();
    }
    false
}

/// Whether one character stands more than `MAX_RUN` times in a row.
fn runs_long(chars: &Vec<char>) -> (r: bool)
    ensures
        r == has_long_run(chars@),
{
    if chars.len() == 0 {
        return false;
    }
    let mut run: usize = 1;
    let mut i: usize = 1;
    while i < chars.len()
        invariant
            1 <= i <= chars@.len(),
            1 <= run <= MAX_RUN,
            run <= i,
            forall|j: int| i - run <= j < i ==> #[trigger] chars@[j] == chars@[i - 1],
            run < i ==> chars@[i - run - 1] != chars@[i - run as int],
            forall|at: int| at + MAX_RUN < i ==> !run_at(chars@, at),
        decreases chars@.len() - i,
    {
        if chars[i - 1] == chars[i] {
            run += 1;
        } else {
            run = 1;
        }
        if run > MAX_RUN {
            assert(run_at(chars@, i - MAX_RUN));
            return true;
        }
        assert forall|at: int| at + MAX_RUN < i + 1 implies !run_at(chars@, at) by {
            if at + MAX_RUN == i && run_at(chars@, at) {
                assert(chars@[at] == chars@[i as int]);
                assert(chars@[i - run as int] == chars@[at]);
                assert(chars@[i - run + 1] == chars@[at]);
            }
        }
        i += 1;
    }
    false
}

/// Assesses a proposed password.
pub fn assess(password: &str) -> (r: Strength)
    ensures
        r@ == assessment(password@),
{
    let chars = chars_of(password);
    let have: usize = chars.len();
    if have < MIN_LENGTH {
        return Strength::TooShort { have, need: MIN_LENGTH };
    }
    if !varied(&chars) {
        return Strength::TooRepetitive {
            reason: "it is built from too few different characters",
        };
    }
    if is_repeated_unit(&chars) {
        return Strength::TooRepetitive { reason: "it is one short piece repeated" };
    }
    if runs_long(&chars) {
        return Strength::TooRepetitive {
            reason: "it contains a long run of one repeated character",
        };
    }
    let words: usize = word_count(&chars);
    if words >= PASSPHRASE_WORDS {
        Strength::Strong { words }
    } else {
        Strength::Acceptable
    }
}

/// Refuses a password that does not meet the floor.
///
/// Called when a vault is created. Opening an existing vault never applies
/// this: a vault made under an older rule must still open.
pub fn require_acceptable(password: &str) -> (r: Result<(), Error>)
    ensures
        r is Ok <==> assessment(password@).acceptable(),
        r matches Err(e) ==> e@ == ErrorView::Other(assessment(password@).sentence()),
{
    let s = assess(password);
    if s.is_acceptable() {
        Ok(())
    } else {
        Err(Error::Other(s.advice()))
    }
}

/// A password is acceptable exactly if it is long enough, is made of enough
/// different characters, is not one piece repeated, and shows no long run of
/// one character. Nothing else is asked of it, and nothing makes up for any of
/// these.
pub proof fn law_acceptable_exactly_when(password: Seq<char>)
    ensures
        assessment(password).acceptable() <==> {
            &&& password.len() >= MIN_LENGTH
            &&& password.to_set().len() >= MIN_DISTINCT_CHARS
            &&& !is_repetition(password)
            &&& !has_long_run(password)
        },
        assessment(password) is Strong ==> assessment(password).acceptable(),
{
}

/// A piece written several times over.
pub open spec fn repeated(piece: Seq<char>, times: nat) -> Seq<char>
    decreases times,
{
    if times == 0 {
        Seq::empty()
    } else {
        repeated(piece, (times - 1) as nat) + piece
    }
}

/// What stands where in a repeated piece.
proof fn lemma_repeated(piece: Seq<char>, times: nat)
    requires
        piece.len() > 0,
    ensures
        repeated(piece, times).len() == times * piece.len(),
        forall|i: int|
            0 <= i < repeated(piece, times).len() ==> #[trigger] repeated(piece, times)[i]
                == piece[i % piece.len() as int],
    decreases times,
{
    let n = piece.len() as int;
    if times > 0 {
        let less = (times - 1) as nat;
        lemma_repeated(piece, less);
        let s = repeated(piece, times);
        assert(times * n == less * n + n) by (nonlinear_arith)
            requires
                less == times - 1,
        ;
        assert forall|i: int| 0 <= i < s.len() implies #[trigger] s[i] == piece[i % n] by {
            if i >= less * n {
                vstd::arithmetic::div_mod::lemma_fundamental_div_mod_converse(
                    i,
                    n,
                    less as int,
                    i - less * n,
                );
            }
        }
    } else {
        assert(0 * n == 0);
    }
}

/// A piece repeated is refused, however long it is and however often it is
/// repeated.
pub proof fn law_repeated_piece_is_refused(piece: Seq<char>, times: nat)
    requires
        piece.len() > 0,
        times >= 2,
    ensures
        !assessment(repeated(piece, times)).acceptable(),
{
    let s = repeated(piece, times);
    let n = piece.len() as int;
    lemma_repeated(piece, times);
    assert(2 * n <= times * n) by (nonlinear_arith)
        requires
            times >= 2,
            n > 0,
    ;
    assert(s.len() as int % n == 0) by {
        vstd::arithmetic::div_mod::lemma_mod_multiples_basic(times as int, n);
    }
    assert forall|i: int| n <= i < s.len() implies #[trigger] s[i] == s[i % n] by {
        assert(0 <= i % n < n);
        assert(s[i % n] == piece[(i % n) % n]);
        vstd::arithmetic::div_mod::lemma_small_mod((i % n) as nat, n as nat);
    }
    assert(repeats_unit(s, n));
}

/// A text that repeats a unit is a piece written several times over.
proof fn lemma_unit_is_repeated(s: Seq<char>, unit: int)
    requires
        repeats_unit(s, unit),
    ensures
        s == repeated(s.take(unit), (s.len() as int / unit) as nat),
        s.len() as int / unit >= 2,
{
    let piece = s.take(unit);
    let times = s.len() as int / unit;
    vstd::arithmetic::div_mod::lemma_fundamental_div_mod(s.len() as int, unit);
    assert(times >= 2) by (nonlinear_arith)
        requires
            s.len() as int == unit * times,
            2 * unit <= s.len(),
            unit > 0,
    ;
    lemma_repeated(piece, times as nat);
    assert(times * unit == unit * times) by (nonlinear_arith);
    let r = repeated(piece, times as nat);
    assert(r.len() == s.len());
    assert forall|i: int| 0 <= i < s.len() implies s[i] == r[i] by {
        assert(r[i] == piece[i % unit]);
        assert(0 <= i % unit < unit);
        if i < unit {
            vstd::arithmetic::div_mod::lemma_small_mod(i as nat, unit as nat);
        }
    }
    assert(s =~= r);
}

/// What a password needs, and all it needs: fifteen characters, six different
/// ones, no piece that it is made of by repeating it, and no character five
/// times in a row.
pub proof fn law_enough_is_acceptable(password: Seq<char>)
    requires
        password.len() >= 15,
        password.to_set().len() >= 6,
        forall|piece: Seq<char>, times: nat|
            times >= 2 ==> password != #[trigger] repeated(piece, times),
        forall|at: int|
            0 <= at < password.len() - 4 ==> !(#[trigger] password[at] == password[at + 1]
                && password[at] == password[at + 2] && password[at] == password[at + 3]
                && password[at] == password[at + 4]),
    ensures
        assessment(password).acceptable(),
{
    if is_repetition(password) {
        let unit = choose|unit: int| repeats_unit(password, unit);
        lemma_unit_is_repeated(password, unit);
    }
    if has_long_run(password) {
        let at = choose|at: int| run_at(password, at);
        assert(password[at + 1] == password[at]);
        assert(password[at + 2] == password[at]);
        assert(password[at + 3] == password[at]);
        assert(password[at + 4] == password[at]);
    }
}

/// A password of fewer than fifteen characters is too short, whatever they are,
/// and is told how many it has and how many it needs.
pub proof fn law_short_is_too_short(password: Seq<char>)
    ensures
        password.len() < 15 ==> assessment(password) == (StrengthView::TooShort {
            have: password.len(),
            need: 15,
        }) && !assessment(password).acceptable(),
        password.len() >= 15 ==> !(assessment(password) is TooShort),
{
}

/// A password of fewer than six different characters is refused, however long.
pub proof fn law_few_characters_are_refused(password: Seq<char>)
    requires
        password.to_set().len() < 6,
    ensures
        !assessment(password).acceptable(),
{
}

/// A password with one character five times in a row is refused, whatever
/// stands before and behind.
pub proof fn law_long_run_is_refused(before: Seq<char>, c: char, behind: Seq<char>)
    ensures
        !assessment(before + seq![c, c, c, c, c] + behind).acceptable(),
{
    let s = before + seq![c, c, c, c, c] + behind;
    let at = before.len() as int;
    assert(forall|i: int| at <= i <= at + 4 ==> s[i] == c);
    assert(run_at(s, at));
}

/// A phrase is strong exactly if it is acceptable and has at least four words,
/// and is told how many it has; an acceptable password that is no such phrase
/// is acceptable all the same.
pub proof fn law_phrase_is_strong(password: Seq<char>)
    ensures
        ({
            let n = words_of(password).len();
            let a = assessment(password);
            &&& a is Strong <==> a.acceptable() && n >= 4
            &&& a is Strong ==> a == (StrengthView::Strong { words: n })
            &&& a is Acceptable <==> a.acceptable() && n < 4
        }),
{
}

/// The words of a phrase are its pieces of two characters or more, between
/// dashes, spaces, underscores and dots: another word behind a separator is
/// one word more, and a single plain character there is none. A single
/// character that takes more than one byte is a word.
pub proof fn law_words_are_counted(
    phrase: Seq<char>,
    sep: char,
    word: Seq<char>,
    c: char,
    d: char,
)
    requires
        sep == '-' || sep == ' ' || sep == '_' || sep == '.',
        word.len() >= 2,
        forall|i: int|
            0 <= i < word.len() ==> #[trigger] word[i] != '-' && word[i] != ' ' && word[i] != '_'
                && word[i] != '.',
        'a' <= c <= 'z',
        d as u32 >= 0x80,
    ensures
        words_of(phrase.push(sep) + seq![d]) == words_of(phrase).push(seq![d]),
        words_of(word) == seq![word],
        words_of(phrase.push(sep) + word) == words_of(phrase).push(word),
        words_of(phrase.push(sep)) == words_of(phrase),
        words_of(phrase.push(sep) + seq![c]) == words_of(phrase),
        words_of(seq![c]).len() == 0,
{
    let cut = |x: char| is_separator(x);
    let keep = |p: Seq<char>| is_word(p);
    let none = Seq::<char>::empty();
    reveal(Seq::filter);
    lemma_is_word(word);
    lemma_is_word(none);
    assert(crate::text::pieces(none, cut) =~= seq![none]);
    assert forall|i: int| 0 <= i < word.len() implies !cut(#[trigger] word[i]) by {}
    crate::text::law_no_cut_is_one_piece(word, cut);
    crate::text::law_cut_between(phrase, sep, word, cut);
    crate::text::law_cut_between(phrase, sep, none, cut);
    crate::text::law_cut_between(phrase, sep, seq![c], cut);
    assert forall|i: int| 0 <= i < seq![c].len() implies !cut(#[trigger] seq![c][i]) by {}
    crate::text::law_no_cut_is_one_piece(seq![c], cut);
    assert(phrase.push(sep) + none =~= phrase.push(sep));
    let ps = crate::text::pieces(phrase, cut);
    assert((ps + seq![word]).drop_last() =~= ps);
    assert((ps + seq![none]).drop_last() =~= ps);
    assert((ps + seq![seq![c]]).drop_last() =~= ps);
    assert(seq![word].drop_last() =~= Seq::<Seq<char>>::empty());
    assert(seq![seq![c]].drop_last() =~= Seq::<Seq<char>>::empty());
    lemma_is_word(seq![c]);
    lemma_is_word(seq![d]);
    crate::text::law_cut_between(phrase, sep, seq![d], cut);
    assert forall|i: int| 0 <= i < seq![d].len() implies !cut(#[trigger] seq![d][i]) by {}
    crate::text::law_no_cut_is_one_piece(seq![d], cut);
    assert((ps + seq![seq![d]]).drop_last() =~= ps);
    assert(words_of(word) =~= seq![word]);
}

/// Why a password that is long enough is refused: too few different characters
/// first, then one piece repeated, then a long run.
pub proof fn law_reason_is_the_first_that_holds(password: Seq<char>)
    requires
        password.len() >= 15,
    ensures
        ({
            let a = assessment(password);
            let few = password.to_set().len() < 6;
            &&& few ==> a == (StrengthView::TooRepetitive {
                reason: "it is built from too few different characters"@,
            })
            &&& !few && is_repetition(password) ==> a == (StrengthView::TooRepetitive {
                reason: "it is one short piece repeated"@,
            })
            &&& !few && !is_repetition(password) && has_long_run(password) ==> a == (
            StrengthView::TooRepetitive {
                reason: "it contains a long run of one repeated character"@,
            })
        }),
{
}

/// What is said to someone whose password is too short names how many
/// characters it has and how many it needs; what is said of a phrase names how
/// many words it has; and what is said of a repetitive one names the reason.
pub proof fn law_advice_names_the_numbers(have: nat, need: nat, reason: Seq<char>, words: nat)
    ensures
        ({
            let short = "Too short: "@ + crate::text::decimal(have) + " characters, and "@
                + crate::text::decimal(need);
            let dull = "Long enough, but "@ + reason;
            let phrase = "A phrase of "@ + crate::text::decimal(words) + " words."@;
            &&& (StrengthView::TooShort { have, need }).sentence().take(short.len() as int) == short
            &&& (StrengthView::TooRepetitive { reason }).sentence().take(dull.len() as int) == dull
            &&& (StrengthView::Strong { words }).sentence().take(phrase.len() as int) == phrase
            &&& !(StrengthView::TooShort { have, need }).acceptable()
            &&& !(StrengthView::TooRepetitive { reason }).acceptable()
            &&& (StrengthView::Strong { words }).acceptable()
            &&& StrengthView::Acceptable.acceptable()
        }),
{
    let short = "Too short: "@ + crate::text::decimal(have) + " characters, and "@
        + crate::text::decimal(need);
    let dull = "Long enough, but "@ + reason;
    let phrase = "A phrase of "@ + crate::text::decimal(words) + " words."@;
    assert((StrengthView::TooShort { have, need }).sentence().take(short.len() as int) =~= short);
    assert((StrengthView::TooRepetitive { reason }).sentence().take(dull.len() as int) =~= dull);
    reveal_strlit(" words.");
    reveal_strlit(
        " words. Easy to remember, and long enough that guessing it is not worth attempting.",
    );
    assert((StrengthView::Strong { words }).sentence().take(phrase.len() as int) =~= phrase);
}

} // verus!
