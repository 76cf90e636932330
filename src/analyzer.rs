//! Analysis of a password: control characters are dropped, every other
//! character is classified, and repeats and arithmetic sequences are weighed.
use vstd::prelude::*;
use std::collections::HashMap;
use crate::common::{CommonPasswords, builtin_common_passwords};

verus! {

/// Code point of a character.
pub open spec fn code(c: char) -> int {
    (c as u32) as int
}

/// Control characters (code point at most 0x1F, or 0x7F) are dropped
/// before a password is analyzed.
pub open spec fn is_control(c: char) -> bool {
    code(c) <= 0x1F || code(c) == 0x7F
}

pub open spec fn is_kept(c: char) -> bool {
    !is_control(c)
}

/// The password that an analysis works on: the input without its control
/// characters.
pub open spec fn visible(s: Seq<char>) -> Seq<char> {
    s.filter(|c: char| is_kept(c))
}

/// The class of a character, decided by its code point; only ASCII
/// characters are numbers, letters, spaces or symbols.
#[derive(Clone, Copy, Debug, PartialEq, Eq, Structural)]
pub enum CharClass {
    Number,
    Uppercase,
    Lowercase,
    Space,
    Symbol,
    Other,
}

pub open spec fn class_of(c: char) -> CharClass {
    let v = code(c);
    if 48 <= v <= 57 {
        CharClass::Number
    } else if 65 <= v <= 90 {
        CharClass::Uppercase
    } else if 97 <= v <= 122 {
        CharClass::Lowercase
    } else if v == 32 {
        CharClass::Space
    } else if 33 <= v <= 47 || 58 <= v <= 64 || 91 <= v <= 96 || 123 <= v <= 126 {
        CharClass::Symbol
    } else {
        CharClass::Other
    }
}

pub open spec fn in_class(k: CharClass) -> spec_fn(char) -> bool {
    |c: char| class_of(c) == k
}

/// Number of characters of `s` in class `k`.
pub open spec fn class_count(s: Seq<char>, k: CharClass) -> nat {
    s.filter(in_class(k)).len()
}

/// The class of a character.
pub fn classify(c: char) -> (k: CharClass)
    ensures
        k == class_of(c),
{
    let v: u32 = c as u32;
    if v >= 48 && v <= 57 {
        CharClass::Number
    } else if v >= 65 && v <= 90 {
        CharClass::Uppercase
    } else if v >= 97 && v <= 122 {
        CharClass::Lowercase
    } else if v == 32 {
        CharClass::Space
    } else if v >= 33 && v <= 47 || v >= 58 && v <= 64 || v >= 91 && v <= 96 || v >= 123 && v
        <= 126 {
        CharClass::Symbol
    } else {
        CharClass::Other
    }
}

/// How many times `c` occurs in `s`.
pub open spec fn occurrences(s: Seq<char>, c: char) -> nat {
    s.filter(equal_to(c)).len()
}

pub open spec fn equal_to(c: char) -> spec_fn(char) -> bool {
    |x: char| x == c
}

/// The character at `i` is equal to one of its immediate neighbours.
pub open spec fn has_equal_neighbour(s: Seq<char>, i: int) -> bool {
    (0 < i && s[i - 1] == s[i]) || (i + 1 < s.len() && s[i + 1] == s[i])
}

/// Number of positions below `n` whose character equals a neighbour.
pub open spec fn equal_neighbour_positions(s: Seq<char>, n: int) -> nat
    decreases n,
{
    if n <= 0 {
        0
    } else {
        equal_neighbour_positions(s, n - 1) + if has_equal_neighbour(s, n - 1) {
            1nat
        } else {
            0nat
        }
    }
}

/// Weight of the runs of immediately repeated characters: a run of `k >= 2`
/// equal characters weighs `k`.
pub open spec fn consecutive_weight(s: Seq<char>) -> nat {
    equal_neighbour_positions(s, s.len() as int)
}

/// Number of positions below `n` whose character occurs more than once in `s`.
pub open spec fn repeated_positions(s: Seq<char>, n: int) -> nat
    decreases n,
{
    if n <= 0 {
        0
    } else {
        repeated_positions(s, n - 1) + if occurrences(s, s[n - 1]) > 1 {
            1nat
        } else {
            0nat
        }
    }
}

/// Weight of the repeats that the consecutive runs do not account for: the
/// occurrences of every character that occurs more than once, less the
/// consecutive weight.
pub open spec fn non_consecutive_weight(s: Seq<char>) -> int {
    repeated_positions(s, s.len() as int) - consecutive_weight(s)
}

/// State of the scan for arithmetic sequences after a prefix of a password.
pub struct ProgressionState {
    /// Difference of code points across the last change of character.
    pub step: Option<int>,
    /// The last two differences were equal: a progression is under way.
    pub in_run: bool,
    /// The current or the previous progression has already been rewarded
    /// with the full bonus.
    pub bonus_given: bool,
    /// Weight accumulated so far.
    pub weight: nat,
}

/// The scan for progressions, one character at a time. A repeated character
/// ends the current run but keeps the last difference. A third character in a
/// row with the same difference adds 3, or 2 when the previous progression
/// ended just before; each further one adds 1.
pub open spec fn progression_scan(s: Seq<char>) -> ProgressionState
    decreases s.len(),
{
    if s.len() < 2 {
        ProgressionState { step: None, in_run: false, bonus_given: false, weight: 0 }
    } else {
        let prev = progression_scan(s.drop_last());
        let a = s[s.len() - 2];
        let b = s.last();
        if a == b {
            ProgressionState { in_run: false, ..prev }
        } else if prev.step == Some(code(a) - code(b)) {
            if prev.in_run {
                ProgressionState { weight: prev.weight + 1, ..prev }
            } else {
                ProgressionState {
                    in_run: true,
                    bonus_given: true,
                    weight: prev.weight + if prev.bonus_given {
                        2nat
                    } else {
                        3nat
                    },
                    ..prev
                }
            }
        } else {
            ProgressionState {
                step: Some(code(a) - code(b)),
                in_run: false,
                bonus_given: prev.in_run && prev.bonus_given,
                weight: prev.weight,
            }
        }
    }
}

pub open spec fn progressive_weight(s: Seq<char>) -> nat {
    progression_scan(s).weight
}

/// What an analysis reports, as mathematical values.
pub struct Analysis {
    pub password: Seq<char>,
    pub length: nat,
    pub spaces_count: nat,
    pub numbers_count: nat,
    pub lowercase_letters_count: nat,
    pub uppercase_letters_count: nat,
    pub symbols_count: nat,
    pub other_characters_count: nat,
    pub consecutive_count: nat,
    pub non_consecutive_count: nat,
    pub progressive_count: nat,
    pub is_common: bool,
}

/// The analysis of `input`, where `common` says whether the password was
/// found among the common passwords.
pub open spec fn analysis_of(input: Seq<char>, common: bool) -> Analysis {
    let t = visible(input);
    Analysis {
        password: t,
        length: t.len(),
        spaces_count: class_count(t, CharClass::Space),
        numbers_count: class_count(t, CharClass::Number),
        lowercase_letters_count: class_count(t, CharClass::Lowercase),
        uppercase_letters_count: class_count(t, CharClass::Uppercase),
        symbols_count: class_count(t, CharClass::Symbol),
        other_characters_count: class_count(t, CharClass::Other),
        consecutive_count: consecutive_weight(t),
        non_consecutive_count: non_consecutive_weight(t) as nat,
        progressive_count: progressive_weight(t),
        is_common: common,
    }
}

// ---------------------------------------------------------------- lemmas

proof fn lemma_class_count_push(s: Seq<char>, x: char, k: CharClass)
    ensures
        class_count(s.push(x), k) == class_count(s, k) + if class_of(x) == k {
            1nat
        } else {
            0nat
        },
{
    s.lemma_filter_push(x, in_class(k));
}

/// The six class counts of a sequence add up to its length.
pub proof fn lemma_class_counts_sum(s: Seq<char>)
    ensures
        class_count(s, CharClass::Number) + class_count(s, CharClass::Uppercase) + class_count(
            s,
            CharClass::Lowercase,
        ) + class_count(s, CharClass::Space) + class_count(s, CharClass::Symbol) + class_count(
            s,
            CharClass::Other,
        ) == s.len(),
    decreases s.len(),
{
    if s.len() == 0 {
        assert(s.filter(in_class(CharClass::Number)).len() == 0) by { reveal(Seq::filter); }
        assert(s.filter(in_class(CharClass::Uppercase)).len() == 0) by { reveal(Seq::filter); }
        assert(s.filter(in_class(CharClass::Lowercase)).len() == 0) by { reveal(Seq::filter); }
        assert(s.filter(in_class(CharClass::Space)).len() == 0) by { reveal(Seq::filter); }
        assert(s.filter(in_class(CharClass::Symbol)).len() == 0) by { reveal(Seq::filter); }
        assert(s.filter(in_class(CharClass::Other)).len() == 0) by { reveal(Seq::filter); }
    } else {
        let d = s.drop_last();
        assert(s =~= d.push(s.last()));
        lemma_class_counts_sum(d);
        lemma_class_count_push(d, s.last(), CharClass::Number);
        lemma_class_count_push(d, s.last(), CharClass::Uppercase);
        lemma_class_count_push(d, s.last(), CharClass::Lowercase);
        lemma_class_count_push(d, s.last(), CharClass::Space);
        lemma_class_count_push(d, s.last(), CharClass::Symbol);
        lemma_class_count_push(d, s.last(), CharClass::Other);
    }
}

proof fn lemma_occurrences_push(s: Seq<char>, x: char, c: char)
    ensures
        occurrences(s.push(x), c) == occurrences(s, c) + if x == c {
            1nat
        } else {
            0nat
        },
{
    s.lemma_filter_push(x, equal_to(c));
}

proof fn lemma_occurs_once(s: Seq<char>, i: int)
    requires
        0 <= i < s.len(),
    ensures
        occurrences(s, s[i]) >= 1,
{
    let c = s[i];
    s.lemma_filter_contains(equal_to(c), i);
    assert(s.filter(equal_to(c)).contains(c));
}

proof fn lemma_occurs_twice(s: Seq<char>, i: int, j: int)
    requires
        0 <= i < j < s.len(),
        s[i] == s[j],
    ensures
        occurrences(s, s[i]) >= 2,
    decreases s.len(),
{
    let c = s[i];
    let d = s.drop_last();
    assert(s =~= d.push(s.last()));
    lemma_occurrences_push(d, s.last(), c);
    if j == s.len() - 1 {
        lemma_occurs_once(d, i);
    } else {
        lemma_occurs_twice(d, i, j);
    }
}

proof fn lemma_consecutive_push(t: Seq<char>, x: char)
    ensures
        consecutive_weight(t.push(x)) == consecutive_weight(t) + if t.len() > 0 && t.last()
            == x {
            if t.len() >= 2 && t[t.len() - 2] == t.last() {
                1nat
            } else {
                2nat
            }
        } else {
            0nat
        },
{
    let u = t.push(x);
    let n = t.len() as int;
    assert forall|k: int| 0 <= k <= n - 1 implies equal_neighbour_positions(u, k)
        == equal_neighbour_positions(t, k) by {
        lemma_neighbour_prefix(t, x, k);
    }
    if n > 0 {
        assert(equal_neighbour_positions(u, n - 1) == equal_neighbour_positions(t, n - 1));
        assert(equal_neighbour_positions(u, n) == equal_neighbour_positions(u, n - 1) + if has_equal_neighbour(u, n - 1) {
            1nat
        } else {
            0nat
        });
        assert(equal_neighbour_positions(u, n + 1) == equal_neighbour_positions(u, n - 1) + (
        if has_equal_neighbour(u, n - 1) {
            1nat
        } else {
            0nat
        }) + if has_equal_neighbour(u, n) {
            1nat
        } else {
            0nat
        });
    } else {
        assert(!has_equal_neighbour(u, 0));
        assert(equal_neighbour_positions(u, 0) == 0);
        assert(equal_neighbour_positions(u, 1) == 0);
    }
}

proof fn lemma_neighbour_prefix(t: Seq<char>, x: char, k: int)
    requires
        k <= t.len() - 1,
    ensures
        equal_neighbour_positions(t.push(x), k) == equal_neighbour_positions(t, k),
    decreases k,
{
    if k > 0 {
        lemma_neighbour_prefix(t, x, k - 1);
        assert(has_equal_neighbour(t.push(x), k - 1) == has_equal_neighbour(t, k - 1));
    }
}

proof fn lemma_neighbours_are_repeats(s: Seq<char>, n: int)
    requires
        n <= s.len(),
    ensures
        equal_neighbour_positions(s, n) <= repeated_positions(s, n),
        repeated_positions(s, n) <= if n < 0 {
            0
        } else {
            n
        },
    decreases n,
{
    if n > 0 {
        lemma_neighbours_are_repeats(s, n - 1);
        let i = n - 1;
        if 0 < i && s[i - 1] == s[i] {
            lemma_occurs_twice(s, i - 1, i);
        } else if i + 1 < s.len() && s[i + 1] == s[i] {
            lemma_occurs_twice(s, i, i + 1);
        }
    }
}

/// Invariant of the scan, by which the progression weight never exceeds the
/// number of characters scanned.
pub open spec fn progression_bound(s: Seq<char>) -> bool {
    let st = progression_scan(s);
    &&& st.in_run ==> st.bonus_given
    &&& (st.in_run || st.bonus_given) ==> st.weight > 0
    &&& st.step is Some ==> s.len() >= 2
    &&& st.weight == 0 || st.weight + 2 <= s.len() + if st.in_run {
        2int
    } else if st.bonus_given {
        1int
    } else {
        0int
    }
}

proof fn lemma_progression_bound(s: Seq<char>)
    ensures
        progression_bound(s),
        progressive_weight(s) <= s.len(),
    decreases s.len(),
{
    if s.len() >= 2 {
        lemma_progression_bound(s.drop_last());
    }
}

/// Relies on `String::push`: it appends one character.
pub assume_specification[ std::string::String::push ](s: &mut String, ch: char)
    ensures
        final(s)@ == old(s)@.push(ch),
;

/// Filtering twice is filtering once: no character that survives the filter
/// is a control character.
pub proof fn lemma_visible_idempotent(s: Seq<char>)
    ensures
        visible(visible(s)) == visible(s),
{
    let t = visible(s);
    let kept = |c: char| is_kept(c);
    assert forall|i: int| 0 <= i < t.len() implies is_kept(#[trigger] t[i]) by {
        s.lemma_filter_pred(kept, i);
    }
    lemma_filter_of_kept(t);
}

proof fn lemma_filter_of_kept(t: Seq<char>)
    requires
        forall|i: int| 0 <= i < t.len() ==> is_kept(#[trigger] t[i]),
    ensures
        visible(t) == t,
    decreases t.len(),
{
    reveal(Seq::filter);
    if t.len() > 0 {
        let d = t.drop_last();
        assert forall|i: int| 0 <= i < d.len() implies is_kept(#[trigger] d[i]) by {
            assert(d[i] == t[i]);
        }
        lemma_filter_of_kept(d);
        assert(t =~= d.push(t.last()));
    }
}

/// The result of analyzing a password.
#[derive(Clone, Debug)]
pub struct AnalyzedPassword {
    password: String,
    length: usize,
    spaces_count: usize,
    numbers_count: usize,
    lowercase_letters_count: usize,
    uppercase_letters_count: usize,
    symbols_count: usize,
    other_characters_count: usize,
    consecutive_count: usize,
    non_consecutive_count: usize,
    progressive_count: usize,
    is_common: bool,
}

impl View for AnalyzedPassword {
    type V = Analysis;

    closed spec fn view(&self) -> Analysis {
        Analysis {
            password: self.password@,
            length: self.length as nat,
            spaces_count: self.spaces_count as nat,
            numbers_count: self.numbers_count as nat,
            lowercase_letters_count: self.lowercase_letters_count as nat,
            uppercase_letters_count: self.uppercase_letters_count as nat,
            symbols_count: self.symbols_count as nat,
            other_characters_count: self.other_characters_count as nat,
            consecutive_count: self.consecutive_count as nat,
            non_consecutive_count: self.non_consecutive_count as nat,
            progressive_count: self.progressive_count as nat,
            is_common: self.is_common,
        }
    }
}

impl AnalyzedPassword {
    /// Every analysis is the analysis of its own (already filtered) password.
    /// Well-formed: the analysis of its own (already filtered) password. Every
    /// analysis that this module hands out is.
    pub open spec fn wf(&self) -> bool {
        self@ == analysis_of(self@.password, self@.is_common)
    }

    pub fn password(&self) -> (r: &str)
        ensures
            r@ == self@.password,
    {
        self.password.as_str()
    }

    pub fn length(&self) -> (r: usize)
        ensures
            r == self@.length,
    {
        self.length
    }

    pub fn spaces_count(&self) -> (r: usize)
        ensures
            r == self@.spaces_count,
    {
        self.spaces_count
    }

    pub fn numbers_count(&self) -> (r: usize)
        ensures
            r == self@.numbers_count,
    {
        self.numbers_count
    }

    pub fn lowercase_letters_count(&self) -> (r: usize)
        ensures
            r == self@.lowercase_letters_count,
    {
        self.lowercase_letters_count
    }

    pub fn uppercase_letters_count(&self) -> (r: usize)
        ensures
            r == self@.uppercase_letters_count,
    {
        self.uppercase_letters_count
    }

    pub fn symbols_count(&self) -> (r: usize)
        ensures
            r == self@.symbols_count,
    {
        self.symbols_count
    }

    pub fn other_characters_count(&self) -> (r: usize)
        ensures
            r == self@.other_characters_count,
    {
        self.other_characters_count
    }

    pub fn consecutive_count(&self) -> (r: usize)
        ensures
            r == self@.consecutive_count,
    {
        self.consecutive_count
    }

    pub fn non_consecutive_count(&self) -> (r: usize)
        ensures
            r == self@.non_consecutive_count,
    {
        self.non_consecutive_count
    }

    pub fn progressive_count(&self) -> (r: usize)
        ensures
            r == self@.progressive_count,
    {
        self.progressive_count
    }

    pub fn into_password(self) -> (r: String)
        ensures
            r@ == self@.password,
    {
        self.password
    }

    /// Whether the password was found among the common passwords; always
    /// false for an analysis made without a dictionary.
    pub fn is_common(&self) -> (r: bool)
        ensures
            r == self@.is_common,
    {
        self.is_common
    }
}

impl PartialEq for AnalyzedPassword {
    fn eq(&self, other: &AnalyzedPassword) -> (r: bool) {
        self.password == other.password && self.length == other.length && self.spaces_count
            == other.spaces_count && self.numbers_count == other.numbers_count
            && self.lowercase_letters_count == other.lowercase_letters_count
            && self.uppercase_letters_count == other.uppercase_letters_count && self.symbols_count
            == other.symbols_count && self.other_characters_count == other.other_characters_count
            && self.consecutive_count == other.consecutive_count && self.non_consecutive_count
            == other.non_consecutive_count && self.progressive_count == other.progressive_count
            && self.is_common == other.is_common
    }
}

impl vstd::std_specs::cmp::PartialEqSpecImpl for AnalyzedPassword {
    open spec fn obeys_eq_spec() -> bool {
        true
    }

    open spec fn eq_spec(&self, other: &AnalyzedPassword) -> bool {
        self@ == other@
    }
}

pub open spec fn widen(step: Option<i64>) -> Option<int> {
    match step {
        Some(d) => Some(d as int),
        None => None,
    }
}

/// Scans `password` once: filters it, classifies and counts its characters,
/// and weighs its repeats and progressions. `common` is then asked of the
/// filtered password.
fn scan(password: &str, common: bool) -> (r: AnalyzedPassword)
    ensures
        r@ == analysis_of(password@, common),
        r.wf(),
{
    broadcast use vstd::std_specs::hash::group_hash_axioms;

    let n: usize = password.unicode_len();
    let mut out = String::new();
    let mut length: usize = 0;
    let mut spaces: usize = 0;
    let mut numbers: usize = 0;
    let mut lowercase: usize = 0;
    let mut uppercase: usize = 0;
    let mut symbols: usize = 0;
    let mut others: usize = 0;
    let mut consecutive: usize = 0;
    let mut progressive: usize = 0;
    let mut last: Option<char> = None;
    let mut in_repeat: bool = false;
    let mut last_step: Option<i64> = None;
    let mut in_run: bool = false;
    let mut bonus_given: bool = false;
    let mut counts: HashMap<u32, usize> = HashMap::new();

    let ghost kept = |c: char| is_kept(c);
    let ghost mut seen: Seq<char> = Seq::empty();
    let ghost mut t: Seq<char> = Seq::empty();
    proof {
        reveal(Seq::filter);
        assert(t.filter(kept) =~= t);
    }
    for c in it: password.chars()
        invariant
            it.seq() == password@,
            n == password@.len(),
            kept == (|c: char| is_kept(c)),
            seen == password@.take(it.index() as int),
            t == seen.filter(kept),
            t.len() <= seen.len(),
            out@ == t,
            length == t.len(),
            numbers == class_count(t, CharClass::Number),
            uppercase == class_count(t, CharClass::Uppercase),
            lowercase == class_count(t, CharClass::Lowercase),
            spaces == class_count(t, CharClass::Space),
            symbols == class_count(t, CharClass::Symbol),
            others == class_count(t, CharClass::Other),
            consecutive == consecutive_weight(t),
            consecutive <= t.len(),
            in_repeat == (t.len() >= 2 && t[t.len() - 1] == t[t.len() - 2]),
            last == (if t.len() > 0 {
                Some(t.last())
            } else {
                None
            }),
            widen(last_step) == progression_scan(t).step,
            in_run == progression_scan(t).in_run,
            bonus_given == progression_scan(t).bonus_given,
            progressive == progression_scan(t).weight,
            progressive <= t.len(),
            forall|ch: char| #[trigger]
                occurrences(t, ch) == if counts@.contains_key(ch as u32) {
                    counts@[ch as u32] as nat
                } else {
                    0nat
                },
    {
        proof {
            seen.lemma_filter_push(c, kept);
            seen = seen.push(c);
            assert(seen =~= password@.take(it.index() + 1));
        }
        let v: u32 = c as u32;
        if !(v <= 0x1F || v == 0x7F) {
            let ghost prev = t;
            proof {
                t = t.push(c);
                assert(t.drop_last() =~= prev);
                lemma_consecutive_push(prev, c);
                lemma_class_count_push(prev, c, CharClass::Number);
                lemma_class_count_push(prev, c, CharClass::Uppercase);
                lemma_class_count_push(prev, c, CharClass::Lowercase);
                lemma_class_count_push(prev, c, CharClass::Space);
                lemma_class_count_push(prev, c, CharClass::Symbol);
                lemma_class_count_push(prev, c, CharClass::Other);
                lemma_progression_bound(t);
                lemma_neighbours_are_repeats(t, t.len() as int);
            }
            out.push(c);
            length = length + 1;

            let seen_before: usize = match counts.get(&v) {
                Some(k) => *k,
                None => 0,
            };
            proof {
                assert(occurrences(prev, c) == seen_before);
                assert(occurrences(prev, c) <= prev.len()) by {
                    prev.lemma_filter_len(equal_to(c));
                }
            }
            counts.insert(v, seen_before + 1);
            proof {
                assert forall|ch: char| #[trigger]
                    occurrences(t, ch) == if counts@.contains_key(ch as u32) {
                        counts@[ch as u32] as nat
                    } else {
                        0nat
                    } by {
                    lemma_occurrences_push(prev, c, ch);
                    if ch as u32 == v {
                        vstd::utf8::char_u32_cast(ch, v);
                        vstd::utf8::char_u32_cast(c, v);
                    }
                }
            }

            match last {
                Some(a) if a == c => {
                    if in_repeat {
                        consecutive = consecutive + 1;
                    } else {
                        consecutive = consecutive + 2;
                        in_repeat = true;
                    }
                    in_run = false;
                },
                Some(a) => {
                    in_repeat = false;
                    let d: i64 = a as u32 as i64 - v as i64;
                    let same = match last_step {
                        Some(p) => p == d,
                        None => false,
                    };
                    if same {
                        if in_run {
                            progressive = progressive + 1;
                        } else {
                            in_run = true;
                            if bonus_given {
                                progressive = progressive + 2;
                            } else {
                                progressive = progressive + 3;
                            }
                            bonus_given = true;
                        }
                    } else {
                        last_step = Some(d);
                        if in_run {
                            in_run = false;
                        } else {
                            bonus_given = false;
                        }
                    }
                },
                None => {},
            }
            last = Some(c);

            match classify(c) {
                CharClass::Number => numbers = numbers + 1,
                CharClass::Uppercase => uppercase = uppercase + 1,
                CharClass::Lowercase => lowercase = lowercase + 1,
                CharClass::Space => spaces = spaces + 1,
                CharClass::Symbol => symbols = symbols + 1,
                CharClass::Other => others = others + 1,
            }
        }
    }
    assert(seen =~= password@);
    proof {
        lemma_neighbours_are_repeats(t, t.len() as int);
    }

    let mut repeated: usize = 0;
    let ghost mut walked: Seq<char> = Seq::empty();
    for c in it: out.as_str().chars()
        invariant
            it.seq() == t,
            walked == t.take(it.index() as int),
            repeated == repeated_positions(t, it.index() as int),
            repeated_positions(t, t.len() as int) <= t.len(),
            t.len() <= n,
            forall|ch: char| #[trigger]
                occurrences(t, ch) == if counts@.contains_key(ch as u32) {
                    counts@[ch as u32] as nat
                } else {
                    0nat
                },
    {
        proof {
            walked = walked.push(c);
        }
        let v: u32 = c as u32;
        let k: usize = match counts.get(&v) {
            Some(k) => *k,
            None => 0,
        };
        proof {
            assert(occurrences(t, c) == k);
            lemma_repeated_monotone(t, it.index() + 1, t.len() as int);
        }
        if k > 1 {
            repeated = repeated + 1;
        }
    }
    let non_consecutive: usize = repeated - consecutive;

    let r = AnalyzedPassword {
        password: out,
        length,
        spaces_count: spaces,
        numbers_count: numbers,
        lowercase_letters_count: lowercase,
        uppercase_letters_count: uppercase,
        symbols_count: symbols,
        other_characters_count: others,
        consecutive_count: consecutive,
        non_consecutive_count: non_consecutive,
        progressive_count: progressive,
        is_common: common,
    };
    proof {
        lemma_visible_idempotent(password@);
    }
    r
}

proof fn lemma_repeated_monotone(s: Seq<char>, i: int, j: int)
    requires
        i <= j,
    ensures
        repeated_positions(s, i) <= repeated_positions(s, j),
    decreases j - i,
{
    if i < j {
        lemma_repeated_monotone(s, i, j - 1);
    }
}

/// Whether the filtered password `t` is in the dictionary, if there is one.
pub open spec fn listed(dictionary: Option<Seq<Seq<char>>>, t: Seq<char>) -> bool {
    match dictionary {
        Some(d) => d.contains(t),
        None => false,
    }
}

/// The analysis of `input`, with its filtered password looked up in
/// `dictionary` when one is given.
pub open spec fn analysis_with(input: Seq<char>, dictionary: Option<Seq<Seq<char>>>) -> Analysis {
    analysis_of(input, listed(dictionary, visible(input)))
}

pub open spec fn dictionary_view(dictionary: Option<&CommonPasswords>) -> Option<Seq<Seq<char>>> {
    match dictionary {
        Some(d) => Some(d@),
        None => None,
    }
}

/// Analyzes `password`, looking its filtered form up in `dictionary` when one
/// is given; without one the analysis reports the password as not common.
pub fn analyze_with(password: &str, dictionary: Option<&CommonPasswords>) -> (r: AnalyzedPassword)
    ensures
        r@ == analysis_with(password@, dictionary_view(dictionary)),
        r.wf(),
{
    let mut r = scan(password, false);
    match dictionary {
        Some(d) => {
            r.is_common = d.contains(r.password.as_str());
        },
        None => {},
    }
    r
}

/// Analyzes `password`, looking it up in the built-in dictionary of common
/// passwords.
pub fn analyze(password: &str) -> (r: AnalyzedPassword)
    ensures
        r@ == analysis_with(password@, Some(builtin_common_passwords())),
        r.wf(),
{
    let d = CommonPasswords::builtin();
    analyze_with(password, Some(&d))
}

/// Whether `password`, exactly as given, is in the built-in dictionary of
/// common passwords.
pub fn is_common_password(password: &str) -> (r: bool)
    ensures
        r == builtin_common_passwords().contains(password@),
{
    let d = CommonPasswords::builtin();
    d.contains(password)
}

/// Bounds on the counts of an analysis: none exceeds its length.
pub proof fn lemma_analysis_bounds(input: Seq<char>, common: bool)
    ensures
        ({
            let a = analysis_of(input, common);
            &&& a.other_characters_count <= a.length
            &&& a.spaces_count <= a.length
            &&& a.consecutive_count <= a.length
            &&& a.non_consecutive_count <= a.length
            &&& a.progressive_count <= a.length
            &&& a.non_consecutive_count + a.consecutive_count == repeated_positions(
                a.password,
                a.length as int,
            )
        }),
{
    let t = visible(input);
    lemma_class_counts_sum(t);
    lemma_neighbours_are_repeats(t, t.len() as int);
    lemma_progression_bound(t);
}

/// Analyzing the password that an analysis reports yields that same
/// analysis again: filtering is a fixed point, and every count depends on
/// the filtered password alone.
pub proof fn lemma_reanalysis_is_identity(input: Seq<char>, dictionary: Option<Seq<Seq<char>>>)
    ensures
        analysis_with(analysis_with(input, dictionary).password, dictionary) == analysis_with(
            input,
            dictionary,
        ),
{
    lemma_visible_idempotent(input);
}

/// The six classification counts of an analysis add up to its length.
pub proof fn lemma_counts_sum_to_length(input: Seq<char>, dictionary: Option<Seq<Seq<char>>>)
    ensures
        ({
            let a = analysis_with(input, dictionary);
            a.numbers_count + a.lowercase_letters_count + a.uppercase_letters_count
                + a.symbols_count + a.spaces_count + a.other_characters_count == a.length
        }),
{
    lemma_class_counts_sum(visible(input));
}

} // verus!
