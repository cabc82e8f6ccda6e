//! Closed sets of keywords that are matched without regard to ASCII case,
//! as style sheets write them.

use vstd::prelude::*;

verus! {

/// The lower-case letter of an ASCII upper-case letter; any other
/// character itself.
pub open spec fn ascii_lower(c: char) -> char {
    if 'A' <= c && c <= 'Z' {
        ((c as u8 + 32) as u8) as char
    } else {
        c
    }
}

/// `s` with every ASCII upper-case letter replaced by its lower-case letter.
pub open spec fn ascii_lowercase(s: Seq<char>) -> Seq<char> {
    Seq::new(s.len(), |i: int| ascii_lower(s[i]))
}

/// Whether `a` and `b` are equal but for the case of ASCII letters.
pub open spec fn same_ignoring_ascii_case(a: Seq<char>, b: Seq<char>) -> bool {
    ascii_lowercase(a) == ascii_lowercase(b)
}

/// The index of the first of the first `n` keywords that equals `value` but
/// for the case of ASCII letters.
pub open spec fn first_match(keywords: Seq<Seq<char>>, value: Seq<char>, n: nat) -> Option<int>
    decreases n,
{
    if n == 0 {
        None
    } else {
        match first_match(keywords, value, (n - 1) as nat) {
            Some(i) => Some(i),
            None => if same_ignoring_ascii_case(keywords[n - 1], value) {
                Some(n - 1)
            } else {
                None
            },
        }
    }
}

/// The first match is a match, and no keyword before it is one; where there
/// is none, no keyword matches.
pub proof fn lemma_first_match(keywords: Seq<Seq<char>>, value: Seq<char>, n: nat)
    requires
        n <= keywords.len(),
    ensures
        match first_match(keywords, value, n) {
            Some(i) => 0 <= i < n && same_ignoring_ascii_case(keywords[i], value) && forall|
                j: int,
            |
                0 <= j < i ==> !same_ignoring_ascii_case(#[trigger] keywords[j], value),
            None => forall|j: int|
                0 <= j < n ==> !same_ignoring_ascii_case(#[trigger] keywords[j], value),
        },
    decreases n,
{
    if n > 0 {
        lemma_first_match(keywords, value, (n - 1) as nat);
    }
}

/// A match among the first keywords stays the first match when more
/// keywords are looked at.
pub proof fn lemma_first_match_stays(keywords: Seq<Seq<char>>, value: Seq<char>, n: nat, m: nat)
    requires
        n <= m,
        first_match(keywords, value, n).is_some(),
    ensures
        first_match(keywords, value, m) == first_match(keywords, value, n),
    decreases m - n,
{
    if n < m {
        lemma_first_match_stays(keywords, value, n, (m - 1) as nat);
    }
}

/// `str::eq_ignore_ascii_case` of std: says whether the two strings are the
/// same once each ASCII upper-case letter is replaced by its lower-case
/// letter.
#[verifier::external_body]
fn eq_ignore_ascii_case(a: &str, b: &str) -> (r: bool)
    ensures
        r == same_ignoring_ascii_case(a@, b@),
{
    a.eq_ignore_ascii_case(b)
}

/// The views of a sequence of strings.
pub open spec fn strings_view(strings: Seq<String>) -> Seq<Seq<char>> {
    Seq::new(strings.len(), |i: int| strings[i]@)
}

/// Matches `value` against `keywords` without regard to ASCII case, and
/// hands back the index of the first keyword that matches, or `None` where
/// none does.
pub fn match_ignore_ascii_case(value: &str, keywords: &Vec<String>) -> (r: Option<usize>)
    ensures
        r == match first_match(strings_view(keywords@), value@, keywords@.len()) {
            Some(i) => Some(i as usize),
            None => None,
        },
{
    let ghost model = strings_view(keywords@);
    let mut i: usize = 0;
    while i < keywords.len()
        invariant
            i <= keywords@.len(),
            model == strings_view(keywords@),
            first_match(model, value@, i as nat).is_none(),
        decreases keywords@.len() - i,
    {
        if eq_ignore_ascii_case(keywords[i].as_str(), value) {
            proof {
                lemma_first_match_stays(model, value@, (i + 1) as nat, keywords@.len());
            }
            return Some(i);
        }
        i = i + 1;
    }
    None
}

/// A closed enumeration of keywords. Its variants are numbered in
/// declaration order, and each is written as the keyword of its number.
#[derive(Clone, Debug, PartialEq, Eq)]
pub struct KeywordEnum {
    pub keywords: Vec<String>,
}

impl View for KeywordEnum {
    type V = Seq<Seq<char>>;

    open spec fn view(&self) -> Seq<Seq<char>> {
        strings_view(self.keywords@)
    }
}

impl KeywordEnum {
    /// The enumeration whose variants are written as `keywords`.
    pub fn new(keywords: Vec<String>) -> (r: KeywordEnum)
        ensures
            r@ == strings_view(keywords@),
    {
        KeywordEnum { keywords }
    }

    /// The number of variants.
    pub fn len(&self) -> (n: usize)
        ensures
            n == self@.len(),
    {
        self.keywords.len()
    }

    /// The variant that the identifier `ident` stands for: the first whose
    /// keyword equals it but for the case of ASCII letters. An identifier
    /// that matches no keyword is an error.
    pub fn parse(&self, ident: &str) -> (r: Result<usize, ()>)
        ensures
            r == match first_match(self@, ident@, self@.len()) {
                Some(i) => Ok::<usize, ()>(i as usize),
                None => Err::<usize, ()>(()),
            },
    {
        match match_ignore_ascii_case(ident, &self.keywords) {
            Some(i) => Ok(i),
            None => Err(()),
        }
    }

    /// The keyword by which `variant` is written, or `None` where the
    /// enumeration has no such variant.
    pub fn to_css(&self, variant: usize) -> (r: Option<&str>)
        ensures
            match r {
                Some(s) => variant < self@.len() && s@ == self@[variant as int],
                None => variant >= self@.len(),
            },
    {
        if variant < self.keywords.len() {
            Some(self.keywords[variant].as_str())
        } else {
            None
        }
    }
}

/// A variant is parsed back from its own keyword, in whatever case of ASCII
/// letters, unless an earlier variant has the same keyword but for that case.
pub proof fn law_parse_inverts_to_css(keywords: Seq<Seq<char>>, v: int, written: Seq<char>)
    requires
        0 <= v < keywords.len(),
        same_ignoring_ascii_case(keywords[v], written),
        forall|i: int| 0 <= i < v ==> !same_ignoring_ascii_case(#[trigger] keywords[i], written),
    ensures
        first_match(keywords, written, keywords.len()) == Some(v),
{
    lemma_first_match(keywords, written, keywords.len());
}

} // verus!
