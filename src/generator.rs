//! Random passwords drawn from chosen character classes.
use vstd::prelude::*;
use crate::analyzer::{CharClass, class_of, classify, code};

verus! {

/// Characters that are easily taken for one another (`iI1loO0"'`|` and the
/// like), left out of the pools when similar characters are excluded.
pub open spec fn is_similar(c: char) -> bool {
    c == '0' || c == '1' || c == 'i' || c == 'l' || c == 'o' || c == 'I' || c == 'O' || c
        == '"' || c == '\'' || c == '`' || c == '|'
}

/// The printable ASCII characters, space included, in code point order.
pub open spec fn printable_ascii() -> Seq<char> {
    Seq::new(95, |i: int| (32 + i) as char)
}

pub open spec fn pool_member(k: CharClass, exclude_similar: bool) -> spec_fn(char) -> bool {
    |c: char| class_of(c) == k && !(exclude_similar && is_similar(c))
}

/// The characters that class `k` contributes to a password, in code point
/// order.
pub open spec fn pool_of(k: CharClass, exclude_similar: bool) -> Seq<char> {
    printable_ascii().filter(pool_member(k, exclude_similar))
}

/// The pool of a class, executable.
pub fn class_pool(k: CharClass, exclude_similar: bool) -> (r: Vec<char>)
    ensures
        r@ == pool_of(k, exclude_similar),
{
    let ghost member = pool_member(k, exclude_similar);
    let mut pool: Vec<char> = Vec::new();
    let mut b: u8 = 32;
    while b < 127
        invariant
            32 <= b <= 127,
            member == pool_member(k, exclude_similar),
            pool@ == printable_ascii().take(b - 32).filter(member),
        decreases 127 - b,
    {
        let c: char = b as char;
        proof {
            assert(code(c) == b);
            assert(printable_ascii().take(b - 31) =~= printable_ascii().take(b - 32).push(c));
            printable_ascii().take(b - 32).lemma_filter_push(c, member);
        }
        let similar = c == '0' || c == '1' || c == 'i' || c == 'l' || c == 'o' || c == 'I' || c
            == 'O' || c == '"' || c == '\'' || c == '`' || c == '|';
        if classify(c) == k && !(exclude_similar && similar) {
            pool.push(c);
        }
        b = b + 1;
    }
    assert(printable_ascii().take(95) =~= printable_ascii());
    pool
}

/// The bit of a class in a coverage mask; other characters have none.
pub open spec fn class_bit(k: CharClass) -> u8 {
    match k {
        CharClass::Number => 1,
        CharClass::Lowercase => 2,
        CharClass::Uppercase => 4,
        CharClass::Symbol => 8,
        CharClass::Space => 16,
        CharClass::Other => 0,
    }
}

fn class_bit_of(k: CharClass) -> (r: u8)
    ensures
        r == class_bit(k),
{
    match k {
        CharClass::Number => 1,
        CharClass::Lowercase => 2,
        CharClass::Uppercase => 4,
        CharClass::Symbol => 8,
        CharClass::Space => 16,
        CharClass::Other => 0,
    }
}

/// The coverage mask of a password: the bits of the classes of its
/// characters.
pub open spec fn mask_of(s: Seq<char>) -> u8
    decreases s.len(),
{
    if s.len() == 0 {
        0
    } else {
        mask_of(s.drop_last()) | class_bit(class_of(s.last()))
    }
}

/// The mask of a list of classes.
pub open spec fn classes_mask(ks: Seq<CharClass>) -> u8
    decreases ks.len(),
{
    if ks.len() == 0 {
        0
    } else {
        classes_mask(ks.drop_last()) | class_bit(ks.last())
    }
}

pub open spec fn is_class_bit(y: u8) -> bool {
    y == 0 || y == 1 || y == 2 || y == 4 || y == 8 || y == 16
}

proof fn lemma_or_bit(x: u8, y: u8, b: u8)
    requires
        is_class_bit(y),
        is_class_bit(b),
        b != 0,
    ensures
        ((x | y) & b != 0) == ((x & b != 0) || y == b),
{
    assert(((x | y) & b != 0) == ((x & b != 0) || y == b)) by (bit_vector)
        requires
            y == 0 || y == 1 || y == 2 || y == 4 || y == 8 || y == 16,
            b == 1 || b == 2 || b == 4 || b == 8 || b == 16,
    ;
}

proof fn lemma_class_bit(k: CharClass)
    ensures
        is_class_bit(class_bit(k)),
        k != CharClass::Other ==> class_bit(k) != 0,
        forall|j: CharClass| j != CharClass::Other && class_bit(j) == class_bit(k) ==> j == k,
{
}

/// A bit of a class is in the mask of a password exactly when one of its
/// characters is of that class.
proof fn lemma_mask_of(s: Seq<char>, k: CharClass)
    requires
        k != CharClass::Other,
    ensures
        (mask_of(s) & class_bit(k) != 0) == has_class(s, k),
    decreases s.len(),
{
    lemma_class_bit(k);
    if s.len() == 0 {
        assert(0u8 & class_bit(k) == 0) by (bit_vector);
    } else {
        let d = s.drop_last();
        lemma_mask_of(d, k);
        lemma_class_bit(class_of(s.last()));
        lemma_or_bit(mask_of(d), class_bit(class_of(s.last())), class_bit(k));
        if exists|j: int| 0 <= j < d.len() && class_of(#[trigger] d[j]) == k {
            let j = choose|j: int| 0 <= j < d.len() && class_of(#[trigger] d[j]) == k;
            assert(s[j] == d[j]);
        }
        if exists|j: int| 0 <= j < s.len() && class_of(#[trigger] s[j]) == k {
            let j = choose|j: int| 0 <= j < s.len() && class_of(#[trigger] s[j]) == k;
            if j < d.len() {
                assert(d[j] == s[j]);
            }
        }
    }
}

proof fn lemma_classes_mask_push(ks: Seq<CharClass>, k: CharClass)
    ensures
        classes_mask(ks.push(k)) == classes_mask(ks) | class_bit(k),
{
    assert(ks.push(k).drop_last() =~= ks);
}

/// Every class of a list has its bit in the list's mask.
proof fn lemma_classes_mask(ks: Seq<CharClass>, i: int)
    requires
        0 <= i < ks.len(),
        ks[i] != CharClass::Other,
    ensures
        classes_mask(ks) & class_bit(ks[i]) != 0,
    decreases ks.len(),
{
    let b = class_bit(ks[i]);
    lemma_class_bit(ks[i]);
    lemma_class_bit(ks.last());
    let d = ks.drop_last();
    lemma_or_bit(classes_mask(d), class_bit(ks.last()), b);
    if i < ks.len() - 1 {
        lemma_classes_mask(d, i);
    }
}

/// The coverage mask of a sequence of characters, executable.
fn coverage(chars: &Vec<char>) -> (m: u8)
    ensures
        m == mask_of(chars@),
{
    let mut m: u8 = 0;
    let mut i: usize = 0;
    while i < chars.len()
        invariant
            i <= chars@.len(),
            m == mask_of(chars@.take(i as int)),
        decreases chars@.len() - i,
    {
        proof {
            assert(chars@.take(i + 1).drop_last() =~= chars@.take(i as int));
        }
        m = m | class_bit_of(classify(chars[i]));
        i = i + 1;
    }
    assert(chars@.take(i as int) =~= chars@);
    m
}

/// `c` is in one of the pools.
pub open spec fn in_some_pool(pools: Seq<Seq<char>>, c: char) -> bool {
    exists|i: int| 0 <= i < pools.len() && #[trigger] pools[i].contains(c)
}

/// Some character of `s` is of class `k`.
pub open spec fn has_class(s: Seq<char>, k: CharClass) -> bool {
    exists|j: int| 0 <= j < s.len() && class_of(#[trigger] s[j]) == k
}

/// Every class of `ks` has a character in `s`.
pub open spec fn covers(ks: Seq<CharClass>, s: Seq<char>) -> bool {
    forall|i: int| 0 <= i < ks.len() ==> has_class(s, #[trigger] ks[i])
}

/// What generation works from: the pools of the enabled classes, in the
/// order numbers, lowercase, uppercase, symbols, spaces; the classes
/// themselves; the length of a password; the mask of all enabled classes;
/// and whether every class must occur.
pub struct GenerationPlan {
    pub pools: Seq<Seq<char>>,
    pub classes: Seq<CharClass>,
    pub length: nat,
    pub target_mask: u8,
    pub strict: bool,
}

impl GenerationPlan {
    pub open spec fn wf(self) -> bool {
        &&& self.length >= 1
        &&& self.pools.len() == self.classes.len()
        &&& self.pools.len() >= 1
        &&& forall|i: int| 0 <= i < self.pools.len() ==> #[trigger] self.pools[i].len() >= 1
        &&& forall|i: int, j: int|
            0 <= i < self.pools.len() && 0 <= j < self.pools[i].len() ==> class_of(
                #[trigger] self.pools[i][j],
            ) == self.classes[i]
        &&& forall|i: int| 0 <= i < self.classes.len() ==> #[trigger] self.classes[i] != CharClass::Other
        &&& self.target_mask == classes_mask(self.classes)
        &&& self.strict ==> self.length >= self.classes.len()
    }

    /// A password that this plan may produce: of the configured length, made
    /// of characters of the pools, and in strict mode with every class.
    pub open spec fn admits(self, s: Seq<char>) -> bool {
        &&& s.len() == self.length
        &&& forall|j: int| 0 <= j < s.len() ==> in_some_pool(self.pools, #[trigger] s[j])
        &&& self.strict ==> covers(self.classes, s)
    }
}

pub open spec fn views_of_pools(v: Seq<Vec<char>>) -> Seq<Seq<char>> {
    v.map_values(|p: Vec<char>| p@)
}

/// A validated generator, ready to produce passwords again and again.
#[derive(Clone)]
pub struct PasswordGeneratorIter {
    pool: Vec<Vec<char>>,
    classes: Ghost<Seq<CharClass>>,
    length: usize,
    target_mask: u8,
    strict: bool,
}

impl View for PasswordGeneratorIter {
    type V = GenerationPlan;

    closed spec fn view(&self) -> GenerationPlan {
        GenerationPlan {
            pools: views_of_pools(self.pool@),
            classes: self.classes@,
            length: self.length as nat,
            target_mask: self.target_mask,
            strict: self.strict,
        }
    }
}

/// Relies on `random_pick::gen_multiple_usize_with_weights`: with the single
/// weight 1 and a positive bound it returns `count` indices, each drawn
/// uniformly below `high`.
#[verifier::external_body]
fn random_indices(high: usize, count: usize) -> (r: Vec<usize>)
    requires
        high > 0,
    ensures
        r@.len() == count,
        forall|i: int| 0 <= i < count ==> #[trigger] r@[i] < high,
{
    random_pick::gen_multiple_usize_with_weights(high, &[1], count)
}

/// The characters of a password as a string.
fn to_string(chars: &Vec<char>) -> (r: String)
    ensures
        r@ == chars@,
{
    let mut s = String::new();
    let mut i: usize = 0;
    while i < chars.len()
        invariant
            i <= chars@.len(),
            s@ == chars@.take(i as int),
        decreases chars@.len() - i,
    {
        s.push(chars[i]);
        i = i + 1;
        assert(s@ =~= chars@.take(i as int));
    }
    assert(chars@.take(i as int) =~= chars@);
    s
}

/// Most batches a strict generation draws for one password before it places
/// the missing classes itself.
const MAX_BATCHES: u64 = 0xFFFF_FFFF_FFFF_FFFF;

impl PasswordGeneratorIter {
    pub open spec fn wf(&self) -> bool {
        self@.wf()
    }

    /// One batch of characters: for each position a pool is picked
    /// uniformly, then a character uniformly within it, so that every
    /// enabled class has the same weight whatever its size.
    fn draw(&self) -> (r: Vec<char>)
        requires
            self.wf(),
        ensures
            r@.len() == self@.length,
            forall|j: int| 0 <= j < r@.len() ==> in_some_pool(self@.pools, #[trigger] r@[j]),
    {
        let pools = random_indices(self.pool.len(), self.length);
        let mut out: Vec<char> = Vec::new();
        let mut j: usize = 0;
        while j < self.length
            invariant
                self.wf(),
                pools@.len() == self.length,
                forall|i: int| 0 <= i < self.length ==> #[trigger] pools@[i] < self.pool@.len(),
                j <= self.length,
                out@.len() == j,
                forall|i: int| 0 <= i < j ==> in_some_pool(self@.pools, #[trigger] out@[i]),
            decreases self.length - j,
        {
            let p = pools[j];
            let pool = &self.pool[p];
            assert(self@.pools[p as int] == pool@);
            assert(self@.pools[p as int].len() >= 1);
            let picked = random_indices(pool.len(), 1);
            let c = pool[picked[0]];
            assert(self@.pools[p as int].contains(c)) by {
                assert(self@.pools[p as int][picked@[0] as int] == c);
            }
            out.push(c);
            j = j + 1;
        }
        out
    }

    /// Places the first character of each pool at the front of `batch`, so
    /// that every class occurs.
    fn place_every_class(&self, batch: Vec<char>) -> (r: Vec<char>)
        requires
            self.wf(),
            self@.strict,
            batch@.len() == self@.length,
            forall|j: int| 0 <= j < batch@.len() ==> in_some_pool(self@.pools, #[trigger] batch@[j]),
        ensures
            self@.admits(r@),
    {
        let mut out = batch;
        let mut i: usize = 0;
        while i < self.pool.len()
            invariant
                self.wf(),
                self@.strict,
                i <= self.pool@.len(),
                out@.len() == self@.length,
                forall|j: int| 0 <= j < out@.len() ==> in_some_pool(self@.pools, #[trigger] out@[j]),
                forall|k: int| 0 <= k < i ==> class_of(#[trigger] out@[k]) == self@.classes[k],
            decreases self.pool@.len() - i,
        {
            assert(self@.pools[i as int] == self.pool@[i as int]@);
            assert(self@.pools[i as int].len() >= 1);
            let c = self.pool[i][0];
            assert(self@.pools[i as int][0] == c);
            assert(self@.pools[i as int].contains(c));
            out.set(i, c);
            i = i + 1;
        }
        assert forall|k: int| 0 <= k < self@.classes.len() implies has_class(
            out@,
            #[trigger] self@.classes[k],
        ) by {
            assert(class_of(out@[k]) == self@.classes[k]);
        }
        out
    }

    /// One password of the plan. In strict mode whole batches are drawn
    /// until one covers every enabled class.
    fn generate_chars(&self) -> (r: Vec<char>)
        requires
            self.wf(),
        ensures
            self@.admits(r@),
    {
        let mut batch = self.draw();
        if !self.strict {
            return batch;
        }
        let mut batches: u64 = 1;
        let mut mask = coverage(&batch);
        while mask != self.target_mask && batches < MAX_BATCHES
            invariant
                self.wf(),
                self@.strict,
                batch@.len() == self@.length,
                forall|j: int| 0 <= j < batch@.len() ==> in_some_pool(self@.pools, #[trigger] batch@[j]),
                mask == mask_of(batch@),
            decreases MAX_BATCHES - batches,
        {
            batch = self.draw();
            mask = coverage(&batch);
            batches = batches + 1;
        }
        if mask == self.target_mask {
            proof {
                assert forall|k: int| 0 <= k < self@.classes.len() implies has_class(
                    batch@,
                    #[trigger] self@.classes[k],
                ) by {
                    lemma_classes_mask(self@.classes, k);
                    lemma_mask_of(batch@, self@.classes[k]);
                }
            }
            batch
        } else {
            self.place_every_class(batch)
        }
    }

    /// Generates `count` passwords.
    pub fn generate(&self, count: usize) -> (r: Vec<String>)
        requires
            self.wf(),
        ensures
            r@.len() == count,
            forall|i: int| 0 <= i < count ==> self@.admits(#[trigger] r@[i]@),
    {
        let mut result: Vec<String> = Vec::new();
        let mut i: usize = 0;
        while i < count
            invariant
                self.wf(),
                i <= count,
                result@.len() == i,
                forall|k: int| 0 <= k < i ==> self@.admits(#[trigger] result@[k]@),
            decreases count - i,
        {
            let chars = self.generate_chars();
            result.push(to_string(&chars));
            i = i + 1;
        }
        result
    }

    /// Generates one password.
    pub fn generate_one(&self) -> (r: String)
        requires
            self.wf(),
        ensures
            self@.admits(r@),
    {
        let mut v = self.generate(1);
        v.remove(0)
    }

    /// The next password of the endless sequence this generator stands for:
    /// always `Some`.
    pub fn next(&mut self) -> (r: Option<String>)
        requires
            old(self).wf(),
        ensures
            *final(self) == *old(self),
            r matches Some(s) && final(self)@.admits(s@),
    {
        Some(self.generate_one())
    }
}

/// Configuration of a password generator.
#[derive(Clone, Debug, PartialEq, Eq, Structural)]
pub struct PasswordGenerator {
    /// The length of the generated passwords. Default: `8`.
    pub length: usize,
    /// Passwords may (or, in strict mode, must) contain numbers. Default: `true`.
    pub numbers: bool,
    /// Passwords may (or must) contain lowercase letters. Default: `true`.
    pub lowercase_letters: bool,
    /// Passwords may (or must) contain uppercase letters. Default: `false`.
    pub uppercase_letters: bool,
    /// Passwords may (or must) contain symbols. Default: `false`.
    pub symbols: bool,
    /// Passwords may (or must) contain spaces. Default: `false`.
    pub spaces: bool,
    /// Leave out characters that are easily taken for one another,
    /// ``iI1loO0"'`|``. Default: `false`.
    pub exclude_similar_characters: bool,
    /// Every enabled class must occur in every password. Default: `false`.
    pub strict: bool,
}

/// The default configuration: 8 characters of numbers and lowercase letters.
pub open spec fn default_generator() -> PasswordGenerator {
    PasswordGenerator {
        length: 8,
        numbers: true,
        lowercase_letters: true,
        uppercase_letters: false,
        symbols: false,
        spaces: false,
        exclude_similar_characters: false,
        strict: false,
    }
}

/// The enabled classes, in the order numbers, lowercase, uppercase, symbols,
/// spaces.
pub open spec fn enabled_classes(g: PasswordGenerator) -> Seq<CharClass> {
    let s0 = Seq::<CharClass>::empty();
    let s1 = if g.numbers {
        s0.push(CharClass::Number)
    } else {
        s0
    };
    let s2 = if g.lowercase_letters {
        s1.push(CharClass::Lowercase)
    } else {
        s1
    };
    let s3 = if g.uppercase_letters {
        s2.push(CharClass::Uppercase)
    } else {
        s2
    };
    let s4 = if g.symbols {
        s3.push(CharClass::Symbol)
    } else {
        s3
    };
    if g.spaces {
        s4.push(CharClass::Space)
    } else {
        s4
    }
}

/// Why a configuration cannot generate, if it cannot.
pub open spec fn config_error(g: PasswordGenerator) -> Option<Seq<char>> {
    if g.length == 0 {
        Some("The length of passwords cannot be 0."@)
    } else if enabled_classes(g).len() == 0 {
        Some("You need to enable at least one kind of characters."@)
    } else if g.strict && g.length < enabled_classes(g).len() {
        Some("The length of passwords is too short."@)
    } else {
        None
    }
}

pub open spec fn pools_of(ks: Seq<CharClass>, exclude_similar: bool) -> Seq<Seq<char>> {
    ks.map_values(|k: CharClass| pool_of(k, exclude_similar))
}

/// The plan that a valid configuration generates from.
pub open spec fn plan_of(g: PasswordGenerator) -> GenerationPlan {
    GenerationPlan {
        pools: pools_of(enabled_classes(g), g.exclude_similar_characters),
        classes: enabled_classes(g),
        length: g.length as nat,
        target_mask: classes_mask(enabled_classes(g)),
        strict: g.strict,
    }
}

/// A configuration with length 0 is refused, whatever its other settings.
pub proof fn lemma_zero_length_rejected(g: PasswordGenerator)
    requires
        g.length == 0,
    ensures
        config_error(g) == Some("The length of passwords cannot be 0."@),
{
}

/// A pool holds characters of its class only, and at least one.
proof fn lemma_pool_of(k: CharClass, exclude_similar: bool)
    requires
        k != CharClass::Other,
    ensures
        pool_of(k, exclude_similar).len() >= 1,
        forall|j: int|
            0 <= j < pool_of(k, exclude_similar).len() ==> #[trigger] pool_member(
                k,
                exclude_similar,
            )(pool_of(k, exclude_similar)[j]),
{
    let member = pool_member(k, exclude_similar);
    assert forall|j: int| 0 <= j < pool_of(k, exclude_similar).len() implies #[trigger] member(
        pool_of(k, exclude_similar)[j],
    ) by {
        printable_ascii().lemma_filter_pred(member, j);
    }
    let w: int = match k {
        CharClass::Number => 50,
        CharClass::Lowercase => 97,
        CharClass::Uppercase => 65,
        CharClass::Symbol => 33,
        _ => 32,
    };
    let c = printable_ascii()[w - 32];
    assert(code(c) == w);
    assert(member(c));
    printable_ascii().lemma_filter_contains(member, w - 32);
    assert(pool_of(k, exclude_similar).contains(c));
}

/// The plan of a valid configuration is well formed.
proof fn lemma_plan_wf(g: PasswordGenerator)
    requires
        config_error(g) is None,
    ensures
        plan_of(g).wf(),
{
    let classes = enabled_classes(g);
    let ex = g.exclude_similar_characters;
    assert forall|i: int| 0 <= i < classes.len() implies #[trigger] classes[i]
        != CharClass::Other by {}
    assert forall|i: int| 0 <= i < classes.len() implies #[trigger] pools_of(classes, ex)[i].len()
        >= 1 by {
        lemma_pool_of(classes[i], ex);
    }
    assert forall|i: int, j: int|
        0 <= i < classes.len() && 0 <= j < pools_of(classes, ex)[i].len() implies class_of(
        #[trigger] pools_of(classes, ex)[i][j],
    ) == classes[i] by {
        lemma_pool_of(classes[i], ex);
        assert(pool_member(classes[i], ex)(pool_of(classes[i], ex)[j]));
    }
}

/// Every character of a password that a valid configuration generates is
/// of an enabled class, and not one of the similar characters when those are
/// excluded; in strict mode every enabled class occurs.
pub proof fn lemma_generated_password(g: PasswordGenerator, s: Seq<char>)
    requires
        config_error(g) is None,
        plan_of(g).admits(s),
    ensures
        s.len() == g.length,
        forall|j: int|
            0 <= j < s.len() ==> enabled_classes(g).contains(class_of(#[trigger] s[j])) && !(
            g.exclude_similar_characters && is_similar(s[j])),
        g.strict ==> forall|k: CharClass| #[trigger]
            enabled_classes(g).contains(k) ==> has_class(s, k),
{
    let ks = enabled_classes(g);
    let ex = g.exclude_similar_characters;
    assert forall|j: int| 0 <= j < s.len() implies ks.contains(class_of(#[trigger] s[j])) && !(ex
        && is_similar(s[j])) by {
        let c = s[j];
        assert(in_some_pool(plan_of(g).pools, c));
        let i = choose|i: int| 0 <= i < plan_of(g).pools.len() && #[trigger] plan_of(
            g,
        ).pools[i].contains(c);
        let pool = pool_of(ks[i], ex);
        assert(plan_of(g).pools[i] == pool);
        let m = choose|m: int| 0 <= m < pool.len() && pool[m] == c;
        printable_ascii().lemma_filter_pred(pool_member(ks[i], ex), m);
        assert(ks[i] == class_of(c));
    }
    if g.strict {
        assert forall|k: CharClass| #[trigger] ks.contains(k) implies has_class(s, k) by {
            let i = choose|i: int| 0 <= i < ks.len() && ks[i] == k;
            assert(has_class(s, ks[i]));
        }
    }
}

impl PasswordGenerator {
    /// The default configuration: 8 characters of numbers and lowercase
    /// letters, not strict.
    pub fn new() -> (r: PasswordGenerator)
        ensures
            r == default_generator(),
    {
        PasswordGenerator {
            length: 8,
            numbers: true,
            lowercase_letters: true,
            uppercase_letters: false,
            symbols: false,
            spaces: false,
            exclude_similar_characters: false,
            strict: false,
        }
    }

    pub fn length(self, length: usize) -> (r: PasswordGenerator)
        ensures
            r == (PasswordGenerator { length, ..self }),
    {
        PasswordGenerator { length, ..self }
    }

    pub fn numbers(self, numbers: bool) -> (r: PasswordGenerator)
        ensures
            r == (PasswordGenerator { numbers, ..self }),
    {
        PasswordGenerator { numbers, ..self }
    }

    pub fn lowercase_letters(self, lowercase_letters: bool) -> (r: PasswordGenerator)
        ensures
            r == (PasswordGenerator { lowercase_letters, ..self }),
    {
        PasswordGenerator { lowercase_letters, ..self }
    }

    pub fn uppercase_letters(self, uppercase_letters: bool) -> (r: PasswordGenerator)
        ensures
            r == (PasswordGenerator { uppercase_letters, ..self }),
    {
        PasswordGenerator { uppercase_letters, ..self }
    }

    pub fn symbols(self, symbols: bool) -> (r: PasswordGenerator)
        ensures
            r == (PasswordGenerator { symbols, ..self }),
    {
        PasswordGenerator { symbols, ..self }
    }

    pub fn spaces(self, space: bool) -> (r: PasswordGenerator)
        ensures
            r == (PasswordGenerator { spaces: space, ..self }),
    {
        PasswordGenerator { spaces: space, ..self }
    }

    pub fn exclude_similar_characters(self, exclude_similar_characters: bool) -> (r:
        PasswordGenerator)
        ensures
            r == (PasswordGenerator { exclude_similar_characters, ..self }),
    {
        PasswordGenerator { exclude_similar_characters, ..self }
    }

    pub fn strict(self, strict: bool) -> (r: PasswordGenerator)
        ensures
            r == (PasswordGenerator { strict, ..self }),
    {
        PasswordGenerator { strict, ..self }
    }

    /// Validates the configuration and builds the pools and the target mask
    /// once, for any number of generations.
    pub fn try_iter(&self) -> (r: Result<PasswordGeneratorIter, &'static str>)
        ensures
            match r {
                Ok(it) => config_error(*self) is None && it.wf() && it@ == plan_of(*self),
                Err(e) => config_error(*self) == Some(e@),
            },
    {
        if self.length == 0 {
            return Err("The length of passwords cannot be 0.");
        }
        let ex = self.exclude_similar_characters;
        let ghost g = *self;
        let mut pool: Vec<Vec<char>> = Vec::new();
        let ghost mut classes: Seq<CharClass> = Seq::empty();
        let mut sections_count: usize = 0;
        let mut target_mask: u8 = 0;
        if self.numbers {
            pool.push(class_pool(CharClass::Number, ex));
            proof {
                lemma_classes_mask_push(classes, CharClass::Number);
                classes = classes.push(CharClass::Number);
            }
            sections_count = sections_count + 1;
            target_mask = target_mask | 1;
        }
        if self.lowercase_letters {
            pool.push(class_pool(CharClass::Lowercase, ex));
            proof {
                lemma_classes_mask_push(classes, CharClass::Lowercase);
                classes = classes.push(CharClass::Lowercase);
            }
            sections_count = sections_count + 1;
            target_mask = target_mask | 2;
        }
        if self.uppercase_letters {
            pool.push(class_pool(CharClass::Uppercase, ex));
            proof {
                lemma_classes_mask_push(classes, CharClass::Uppercase);
                classes = classes.push(CharClass::Uppercase);
            }
            sections_count = sections_count + 1;
            target_mask = target_mask | 4;
        }
        if self.symbols {
            pool.push(class_pool(CharClass::Symbol, ex));
            proof {
                lemma_classes_mask_push(classes, CharClass::Symbol);
                classes = classes.push(CharClass::Symbol);
            }
            sections_count = sections_count + 1;
            target_mask = target_mask | 8;
        }
        if self.spaces {
            pool.push(class_pool(CharClass::Space, ex));
            proof {
                lemma_classes_mask_push(classes, CharClass::Space);
                classes = classes.push(CharClass::Space);
            }
            sections_count = sections_count + 1;
            target_mask = target_mask | 16;
        }
        assert(target_mask == classes_mask(classes));
        assert(classes == enabled_classes(g));
        assert(sections_count == classes.len());
        if !self.numbers && !self.lowercase_letters && !self.uppercase_letters && !self.symbols
            && !self.spaces {
            Err("You need to enable at least one kind of characters.")
        } else if self.strict && self.length < sections_count {
            Err("The length of passwords is too short.")
        } else {
            let it = PasswordGeneratorIter {
                pool,
                classes: Ghost(classes),
                length: self.length,
                target_mask,
                strict: self.strict,
            };
            proof {
                assert(views_of_pools(pool@) =~= pools_of(classes, ex));
                lemma_plan_wf(g);
            }
            Ok(it)
        }
    }

    /// Generates `count` passwords, or says why the configuration cannot.
    pub fn generate(&self, count: usize) -> (r: Result<Vec<String>, &'static str>)
        ensures
            match r {
                Ok(v) => config_error(*self) is None && v@.len() == count && forall|i: int|
                    0 <= i < count ==> plan_of(*self).admits(#[trigger] v@[i]@),
                Err(e) => config_error(*self) == Some(e@),
            },
    {
        let iter = self.try_iter()?;
        Ok(iter.generate(count))
    }

    /// Generates one password, or says why the configuration cannot.
    pub fn generate_one(&self) -> (r: Result<String, &'static str>)
        ensures
            match r {
                Ok(s) => config_error(*self) is None && plan_of(*self).admits(s@),
                Err(e) => config_error(*self) == Some(e@),
            },
    {
        let iter = self.try_iter()?;
        Ok(iter.generate_one())
    }
}

impl Default for PasswordGenerator {
    fn default() -> (r: PasswordGenerator)
        ensures
            r == default_generator(),
    {
        PasswordGenerator::new()
    }
}

} // verus!
