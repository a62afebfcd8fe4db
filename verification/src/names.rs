use vstd::prelude::*;

verus! {

/// Name for what `str::to_lowercase` returns on a string: its lowercase
/// form under the Unicode `Lowercase` mapping.
pub uninterp spec fn lowercase(s: Seq<char>) -> Seq<char>;

/// Calls `str::to_lowercase`. Its result is taken to depend on the
/// characters of `s` alone, and is named `lowercase(s@)`; nothing more is
/// claimed of the Unicode mapping itself.
#[verifier::external_body]
pub(crate) fn to_lowercase(s: &str) -> (lower: String)
    ensures
        lower@ == lowercase(s@),
{
    s.to_lowercase()
}

/// Calls `String::push`, which appends one character.
#[verifier::external_body]
fn push_char(s: &mut String, c: char)
    ensures
        final(s)@ == old(s)@.push(c),
{
    s.push(c)
}

/// Underscores become spaces; every other character is kept.
pub open spec fn space_for_underscore(c: char) -> char {
    if c == '_' {
        ' '
    } else {
        c
    }
}

/// A name in the form in which rankings are keyed: lowercase, with spaces
/// in place of underscores.
pub open spec fn spec_normalize(s: Seq<char>) -> Seq<char> {
    lowercase(s).map_values(|c: char| space_for_underscore(c))
}

/// A normalized name holds no underscore, and has as many characters as
/// the lowercase name.
pub proof fn lemma_normalized_has_no_underscore(s: Seq<char>)
    ensures
        spec_normalize(s).len() == lowercase(s).len(),
        forall|i: int| 0 <= i < spec_normalize(s).len() ==> #[trigger] spec_normalize(s)[i] != '_',
{
}

/// A normalized name is the lowercase name with each underscore made a
/// space: character for character, an underscore of the lowercase name
/// gives a space and any other character stays.
pub proof fn lemma_normalized_characters(s: Seq<char>)
    ensures
        spec_normalize(s).len() == lowercase(s).len(),
        forall|i: int|
            0 <= i < lowercase(s).len() ==> #[trigger] spec_normalize(s)[i] == (if lowercase(s)[i] == '_' {
                ' '
            } else {
                lowercase(s)[i]
            }),
{
}

/// Replaces each underscore of a name by a space, keeping every other
/// character.
pub fn replace_underscores(name: &str) -> (n: String)
    ensures
        n@ == name@.map_values(|c: char| space_for_underscore(c)),
{
    let len = name.unicode_len();
    let mut n = String::new();
    let mut i: usize = 0;
    while i < len
        invariant
            len == name@.len(),
            i <= len,
            n@ == name@.take(i as int).map_values(|c: char| space_for_underscore(c)),
        decreases len - i,
    {
        let c = name.get_char(i);
        if c == '_' {
            push_char(&mut n, ' ');
        } else {
            push_char(&mut n, c);
        }
        proof {
            assert(name@.take(i + 1) == name@.take(i as int).push(c));
        }
        i = i + 1;
        assert(n@ =~= name@.take(i as int).map_values(|c: char| space_for_underscore(c)));
    }
    assert(name@.take(len as int) == name@);
    n
}

/// Lowercases a name and replaces each underscore by a space.
pub fn normalize(s: &str) -> (n: String)
    ensures
        n@ == spec_normalize(s@),
{
    let lower = to_lowercase(s);
    replace_underscores(lower.as_str())
}

/// Whether two strings hold the same characters.
pub fn str_eq(a: &str, b: &str) -> (eq: bool)
    ensures
        eq == (a@ == b@),
{
    let la = a.unicode_len();
    let lb = b.unicode_len();
    if la != lb {
        return false;
    }
    let mut i: usize = 0;
    while i < la
        invariant
            la == a@.len(),
            lb == b@.len(),
            la == lb,
            i <= la,
            forall|j: int| 0 <= j < i ==> a@[j] == b@[j],
        decreases la - i,
    {
        if a.get_char(i) != b.get_char(i) {
            return false;
        }
        i = i + 1;
    }
    assert(a@ =~= b@);
    true
}

/// Whether `needle` occurs in `hay` at position `at`.
pub open spec fn occurs_at(hay: Seq<char>, needle: Seq<char>, at: int) -> bool {
    0 <= at && at + needle.len() <= hay.len() && hay.subrange(at, at + needle.len()) == needle
}

/// Whether `needle` occurs anywhere in `hay`.
pub open spec fn spec_contains(hay: Seq<char>, needle: Seq<char>) -> bool {
    exists|at: int| occurs_at(hay, needle, at)
}

/// Whether `needle` occurs as a substring of `hay`.
pub fn str_contains(hay: &str, needle: &str) -> (found: bool)
    ensures
        found == spec_contains(hay@, needle@),
{
    let lh = hay.unicode_len();
    let ln = needle.unicode_len();
    if ln > lh {
        assert forall|at: int| !occurs_at(hay@, needle@, at) by {}
        return false;
    }
    let mut at: usize = 0;
    while at <= lh - ln
        invariant
            lh == hay@.len(),
            ln == needle@.len(),
            ln <= lh,
            at <= lh - ln + 1,
            forall|k: int| 0 <= k < at ==> !occurs_at(hay@, needle@, k),
        decreases lh - ln + 1 - at,
    {
        let mut j: usize = 0;
        let mut same = true;
        while j < ln
            invariant
                lh == hay@.len(),
                ln == needle@.len(),
                at + ln <= lh,
                j <= ln,
                same == (forall|m: int| 0 <= m < j ==> hay@[at + m] == needle@[m]),
            decreases ln - j,
        {
            if hay.get_char(at + j) != needle.get_char(j) {
                same = false;
            }
            j = j + 1;
        }
        if same {
            assert(hay@.subrange(at as int, at + ln) =~= needle@);
            assert(occurs_at(hay@, needle@, at as int));
            return true;
        }
        assert(!occurs_at(hay@, needle@, at as int)) by {
            if occurs_at(hay@, needle@, at as int) {
                let m = choose|m: int| 0 <= m < ln && hay@[at + m] != needle@[m];
                assert(hay@.subrange(at as int, at + ln)[m] == hay@[at + m]);
            }
        }
        at = at + 1;
    }
    assert forall|k: int| !occurs_at(hay@, needle@, k) by {
        if occurs_at(hay@, needle@, k) {
            assert(0 <= k < at);
        }
    }
    false
}

/// The gender of a Pokémon.
#[derive(Debug, Clone, Copy, PartialEq, Eq, Structural)]
pub enum Gender {
    Unset,
    Male,
    Female,
    Genderless,
}

impl Gender {
    /// The gender that a game-master gender name stands for.
    pub open spec fn spec_from_str(s: Seq<char>) -> Gender {
        if s == "MALE"@ {
            Gender::Male
        } else if s == "FEMALE"@ {
            Gender::Female
        } else if s == "GENDERLESS"@ {
            Gender::Genderless
        } else {
            Gender::Unset
        }
    }

    /// Reads a game-master gender name: `MALE`, `FEMALE` or `GENDERLESS`;
    /// any other text gives `Unset`.
    pub fn from_str(s: &str) -> (g: Gender)
        ensures
            g == Gender::spec_from_str(s@),
    {
        if str_eq(s, "MALE") {
            Gender::Male
        } else if str_eq(s, "FEMALE") {
            Gender::Female
        } else if str_eq(s, "GENDERLESS") {
            Gender::Genderless
        } else {
            Gender::Unset
        }
    }
}

} // verus!
