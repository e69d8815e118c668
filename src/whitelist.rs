use vstd::prelude::*;

verus! {

/// `true` when `suffix` is a suffix of `s`.
pub open spec fn ends_with(s: Seq<char>, suffix: Seq<char>) -> bool {
    suffix.len() <= s.len() && s.subrange(s.len() - suffix.len(), s.len() as int) == suffix
}

/// `true` when `name` ends with one of `exts`.
pub open spec fn ends_with_any(name: Seq<char>, exts: Seq<Seq<char>>) -> bool {
    exists|i: int| 0 <= i < exts.len() && ends_with(name, #[trigger] exts[i])
}

pub open spec fn is_ascii_char(c: char) -> bool {
    (c as u32) < 128
}

/// `c` with `A`..`Z` mapped to `a`..`z`.
pub open spec fn ascii_lower_char(c: char) -> char {
    if 'A' <= c && c <= 'Z' {
        ((c as u32) + 32) as char
    } else {
        c
    }
}

/// ASCII case folding of a whole sequence, character by character.
pub open spec fn ascii_lower(s: Seq<char>) -> Seq<char> {
    s.map_values(|c: char| ascii_lower_char(c))
}

/// What `str::to_lowercase` returns on a string.
pub uninterp spec fn lower_of(s: Seq<char>) -> Seq<char>;

/// Relies on `str::to_lowercase`: the result depends on the characters alone;
/// on ASCII text the Unicode lowercase mapping sends `A`..`Z` to `a`..`z` and
/// keeps every other character.
#[verifier::external_body]
fn lowercase(s: &str) -> (r: String)
    ensures
        r@ == lower_of(s@),
        s@.all(|c: char| is_ascii_char(c)) ==> r@ == ascii_lower(s@),
{
    s.to_lowercase()
}

/// Decides whether `suffix` ends `s`, character by character.
fn has_suffix(s: &str, suffix: &str) -> (r: bool)
    ensures
        r == ends_with(s@, suffix@),
{
    let n = s.unicode_len();
    let m = suffix.unicode_len();
    if m > n {
        return false;
    }
    let start: usize = n - m;
    let mut i: usize = 0;
    while i < m
        invariant
            n == s@.len(),
            m == suffix@.len(),
            m <= n,
            start == n - m,
            i <= m,
            forall|k: int| 0 <= k < i ==> s@[start + k] == suffix@[k],
        decreases m - i,
    {
        if s.get_char(start + i) != suffix.get_char(i) {
            assert(s@.subrange(start as int, n as int)[i as int] != suffix@[i as int]);
            return false;
        }
        i = i + 1;
    }
    assert(s@.subrange(start as int, n as int) =~= suffix@);
    true
}

/// The set of filename suffixes (such as `.jpg`) that an image may carry.
#[derive(Debug)]
pub struct ExtensionWhitelist {
    extensions: Vec<&'static str>,
}

impl ExtensionWhitelist {
    /// The suffixes, in the order given.
    pub closed spec fn suffixes(&self) -> Seq<Seq<char>> {
        self.extensions@.map_values(|e: &'static str| e@)
    }

    /// `true` when the file name `name` passes the filter.
    pub open spec fn admits(&self, name: Seq<char>) -> bool {
        ends_with_any(lower_of(name), self.suffixes())
    }

    /// The default filter: `.jpg` and `.jpeg`.
    pub fn new_with_default() -> (r: ExtensionWhitelist)
        ensures
            r.suffixes() == seq![seq!['.', 'j', 'p', 'g'], seq!['.', 'j', 'p', 'e', 'g']],
    {
        let r = ExtensionWhitelist { extensions: vec![".jpg", ".jpeg"] };
        proof {
            reveal_strlit(".jpg");
            reveal_strlit(".jpeg");
            assert(".jpg"@ =~= seq!['.', 'j', 'p', 'g']);
            assert(".jpeg"@ =~= seq!['.', 'j', 'p', 'e', 'g']);
            assert(r.extensions@ =~= seq![".jpg", ".jpeg"]);
            assert(r.suffixes() =~= seq![seq!['.', 'j', 'p', 'g'], seq!['.', 'j', 'p', 'e', 'g']]);
        }
        r
    }

    /// A filter that admits exactly the names ending with one of `extensions`.
    pub fn new(extensions: Vec<&'static str>) -> (r: ExtensionWhitelist)
        ensures
            r.suffixes() == extensions@.map_values(|e: &'static str| e@),
    {
        ExtensionWhitelist { extensions }
    }

    /// Whether an already lower-cased file name ends with one of the suffixes.
    pub fn matches_lowered(&self, lowered: &str) -> (r: bool)
        ensures
            r == ends_with_any(lowered@, self.suffixes()),
    {
        let mut i: usize = 0;
        while i < self.extensions.len()
            invariant
                i <= self.extensions@.len(),
                forall|k: int| 0 <= k < i ==> !ends_with(lowered@, #[trigger] self.suffixes()[k]),
            decreases self.extensions@.len() - i,
        {
            if has_suffix(lowered, self.extensions[i]) {
                assert(ends_with(lowered@, self.suffixes()[i as int]));
                return true;
            }
            i = i + 1;
        }
        false
    }

    /// Whether `filename`, lower-cased, ends with one of the suffixes. On an
    /// ASCII name the case of its letters does not matter.
    pub fn is_whitelisted(&self, filename: &str) -> (r: bool)
        ensures
            r == self.admits(filename@),
            filename@.all(|c: char| is_ascii_char(c)) ==> r == ends_with_any(
                ascii_lower(filename@),
                self.suffixes(),
            ),
    {
        let lowered = lowercase(filename);
        self.matches_lowered(lowered.as_str())
    }
}

impl Default for ExtensionWhitelist {
    fn default() -> (r: ExtensionWhitelist)
        ensures
            r.suffixes() == seq![seq!['.', 'j', 'p', 'g'], seq!['.', 'j', 'p', 'e', 'g']],
    {
        Self::new_with_default()
    }
}

} // verus!
