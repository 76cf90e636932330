//! Dictionaries of common passwords: exact, case-sensitive membership.
use vstd::prelude::*;

verus! {

/// The views of a list of strings.
pub open spec fn views_of(v: Seq<String>) -> Seq<Seq<char>> {
    v.map_values(|e: String| e@)
}

/// A dictionary of passwords known to be common, and so dangerous to use.
pub struct CommonPasswords {
    entries: Vec<String>,
}

impl View for CommonPasswords {
    type V = Seq<Seq<char>>;

    closed spec fn view(&self) -> Seq<Seq<char>> {
        views_of(self.entries@)
    }
}

/// The words of the built-in dictionary: some of the passwords found most
/// often in published leaks.
pub open spec fn builtin_words() -> Seq<&'static str> {
    seq![
        "123456", "password", "12345678", "qwerty", "123456789", "12345", "1234", "111111",
        "1234567", "dragon", "123123", "baseball", "abc123", "football", "monkey", "letmein",
        "696969", "shadow", "master", "666666", "qwertyuiop", "123321", "mustang",
        "1234567890", "michael", "654321", "superman", "1qaz2wsx", "7777777", "121212",
        "000000", "qazwsx", "123qwe", "killer", "trustno1", "jordan", "jennifer", "zxcvbnm",
        "asdfgh", "hunter", "buster", "soccer", "harley", "batman", "andrew", "tigger",
        "sunshine", "iloveyou", "2000", "charlie", "robert", "thomas", "hockey", "ranger",
        "daniel", "starwars", "klaster", "112233", "george", "computer", "michelle", "jessica",
        "pepper", "1111", "zxcvbn", "555555", "11111111", "131313", "freedom", "777777",
        "pass", "maggie", "159753", "aaaaaa", "ginger", "princess", "joshua", "cheese",
        "amanda", "summer", "love", "ashley", "nicole", "chelsea", "biteme", "matthew",
        "access", "yankees", "987654321", "dallas", "austin", "thunder", "taylor", "matrix",
    ]
}

/// The built-in dictionary, as character sequences.
pub open spec fn builtin_common_passwords() -> Seq<Seq<char>> {
    builtin_words().map_values(|w: &str| w@)
}

impl CommonPasswords {
    /// A dictionary that holds exactly `entries`.
    pub fn new(entries: Vec<String>) -> (r: CommonPasswords)
        ensures
            r@ == views_of(entries@),
    {
        CommonPasswords { entries }
    }

    /// The built-in dictionary.
    pub fn builtin() -> (r: CommonPasswords)
        ensures
            r@ == builtin_common_passwords(),
    {
        let words: Vec<&str> = vec![
            "123456", "password", "12345678", "qwerty", "123456789", "12345", "1234", "111111",
            "1234567", "dragon", "123123", "baseball", "abc123", "football", "monkey",
            "letmein", "696969", "shadow", "master", "666666", "qwertyuiop", "123321",
            "mustang", "1234567890", "michael", "654321", "superman", "1qaz2wsx", "7777777",
            "121212", "000000", "qazwsx", "123qwe", "killer", "trustno1", "jordan", "jennifer",
            "zxcvbnm", "asdfgh", "hunter", "buster", "soccer", "harley", "batman", "andrew",
            "tigger", "sunshine", "iloveyou", "2000", "charlie", "robert", "thomas", "hockey",
            "ranger", "daniel", "starwars", "klaster", "112233", "george", "computer",
            "michelle", "jessica", "pepper", "1111", "zxcvbn", "555555", "11111111", "131313",
            "freedom", "777777", "pass", "maggie", "159753", "aaaaaa", "ginger", "princess",
            "joshua", "cheese", "amanda", "summer", "love", "ashley", "nicole", "chelsea",
            "biteme", "matthew", "access", "yankees", "987654321", "dallas", "austin",
            "thunder", "taylor", "matrix",
        ];
        assert(words@ == builtin_words());
        let mut entries: Vec<String> = Vec::new();
        for i in 0..words.len()
            invariant
                words@ == builtin_words(),
                entries@.len() == i,
                forall|j: int| 0 <= j < i ==> #[trigger] entries@[j]@ == words@[j]@,
        {
            entries.push(String::from_str(words[i]));
        }
        assert(views_of(entries@) =~= builtin_common_passwords());
        CommonPasswords { entries }
    }

    /// Whether `password` is, exactly, one of the entries.
    pub fn contains(&self, password: &str) -> (r: bool)
        ensures
            r == self@.contains(password@),
    {
        let target = String::from_str(password);
        let mut i: usize = 0;
        while i < self.entries.len()
            invariant
                i <= self.entries@.len(),
                target@ == password@,
                forall|j: int| 0 <= j < i ==> self.entries@[j]@ != password@,
            decreases self.entries@.len() - i,
        {
            if self.entries[i] == target {
                assert(self@[i as int] == password@);
                return true;
            }
            i = i + 1;
        }
        assert(!self@.contains(password@)) by {
            if self@.contains(password@) {
                let k = choose|k: int| 0 <= k < self@.len() && self@[k] == password@;
                assert(self.entries@[k]@ == password@);
            }
        }
        false
    }
}

} // verus!
