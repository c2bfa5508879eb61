//! The noise-suffix heuristic.
//!
//! A noise suffix is a numeric tail left on a file name by earlier manual
//! copying: a hyphen and digits, an underscore and digits, or exactly two
//! bare digits, each at the very end of the name's stem. The three shapes are
//! regular expressions, matched in this order by the `regex` crate.
//!
//! Two bare digits count only where no third digit stands before them. The
//! regex engine has no look-behind, so the third pattern takes the character
//! before the digits into the match, as a group, and the removal puts that
//! group back.

use crate::filename::{extension, lemma_stem_extension, split_extension, stem};
use crate::fingerprint::{format_short_digest, short_digest, Fingerprint};
use crate::pattern::{
    pattern_compiles, pattern_is_match, pattern_replace, regex_accepts, regex_matches,
    regex_replaced,
};
use vstd::prelude::*;
use vstd::string::*;

verus! {

/// A hyphen followed by one or more digits, at the end.
pub const HYPHEN_DIGITS: &'static str = "-\\d+$";

/// An underscore followed by one or more digits, at the end.
pub const UNDERSCORE_DIGITS: &'static str = "_\\d+$";

/// Exactly two digits at the end: before them stands the start of the text
/// or a character that is no digit, which is the first group of the match.
pub const TWO_DIGITS: &'static str = "(^|\\D)\\d{2}$";

/// The text put in place of a match of `TWO_DIGITS`: its first group, so
/// that only the two digits go.
pub const KEEP_FIRST_GROUP: &'static str = "$1";

/// Whether the stem `base` ends in a noise suffix: one of the three patterns
/// matches it.
pub open spec fn noise_suffix(base: Seq<char>) -> bool {
    ||| regex_matches(HYPHEN_DIGITS@, base)
    ||| regex_matches(UNDERSCORE_DIGITS@, base)
    ||| regex_matches(TWO_DIGITS@, base)
}

/// The stem `base` after the three removals, each applied to what the one
/// before it left: the hyphen tail, then the underscore tail, then exactly
/// two digits.
pub open spec fn stripped(base: Seq<char>) -> Seq<char> {
    let no_hyphen = regex_replaced(HYPHEN_DIGITS@, base, Seq::empty());
    let no_underscore = regex_replaced(UNDERSCORE_DIGITS@, no_hyphen, Seq::empty());
    regex_replaced(TWO_DIGITS@, no_underscore, KEEP_FIRST_GROUP@)
}

/// Whether the file name `name` carries a noise suffix before its extension.
pub open spec fn is_noisy(name: Seq<char>) -> bool {
    noise_suffix(stem(name))
}

/// The file name `name` with the noise suffixes of its stem removed and its
/// extension put back.
pub open spec fn clean_name(name: Seq<char>) -> Seq<char> {
    stripped(stem(name)) + extension(name)
}

/// The file name `name` with an underscore and the first eight digits of
/// `digest` put between its stem and its extension.
pub open spec fn hashed_name(name: Seq<char>, digest: Fingerprint) -> Seq<char> {
    stem(name) + seq!['_'] + short_digest(digest) + extension(name)
}

/// The suffix rules, ready for use. A value of this type exists only where
/// the regex compiler accepted all three patterns, so its methods always get
/// an answer from the regex engine.
pub struct SuffixRules {
    sealed: (),
}

impl SuffixRules {
    #[verifier::type_invariant]
    spec fn patterns_accepted(self) -> bool {
        &&& regex_accepts(HYPHEN_DIGITS@)
        &&& regex_accepts(UNDERSCORE_DIGITS@)
        &&& regex_accepts(TWO_DIGITS@)
    }

    /// Checks the three patterns with the regex compiler. `None` when it
    /// turns one of them down.
    pub fn new() -> (rules: Option<SuffixRules>)
        ensures
            rules is Some <==> (regex_accepts(HYPHEN_DIGITS@) && regex_accepts(UNDERSCORE_DIGITS@)
                && regex_accepts(TWO_DIGITS@)),
    {
        if pattern_compiles(HYPHEN_DIGITS) && pattern_compiles(UNDERSCORE_DIGITS)
            && pattern_compiles(TWO_DIGITS) {
            Some(SuffixRules { sealed: () })
        } else {
            None
        }
    }

    /// Whether the stem `base` ends in a noise suffix.
    pub fn stem_has_noise_suffix(&self, base: &str) -> (noisy: bool)
        ensures
            noisy == noise_suffix(base@),
    {
        proof {
            use_type_invariant(self);
        }
        let hyphen = pattern_is_match(HYPHEN_DIGITS, base).unwrap();
        let underscore = pattern_is_match(UNDERSCORE_DIGITS, base).unwrap();
        let bare = pattern_is_match(TWO_DIGITS, base).unwrap();
        hyphen || underscore || bare
    }

    /// Removes the noise suffixes from the stem `base`, rule by rule. A stem
    /// without a noise suffix is returned as it is.
    pub fn strip_stem(&self, base: &str) -> (clean: String)
        ensures
            clean@ == stripped(base@),
            !noise_suffix(base@) ==> clean@ == base@,
    {
        proof {
            use_type_invariant(self);
            reveal_strlit("");
            assert(""@ =~= Seq::<char>::empty());
        }
        let no_hyphen = pattern_replace(HYPHEN_DIGITS, base, "").unwrap();
        let no_underscore = pattern_replace(UNDERSCORE_DIGITS, no_hyphen.as_str(), "").unwrap();
        pattern_replace(TWO_DIGITS, no_underscore.as_str(), KEEP_FIRST_GROUP).unwrap()
    }

    /// Whether `filename` carries a noise suffix. The extension, from the last
    /// dot on, is set aside first.
    pub fn has_noise_suffix(&self, filename: &str) -> (noisy: bool)
        ensures
            noisy == is_noisy(filename@),
    {
        let (base, _) = split_extension(filename);
        self.stem_has_noise_suffix(base.as_str())
    }

    /// Strips the noise suffixes from `filename` and puts its extension back.
    /// A name without a noise suffix is returned as it is.
    pub fn strip_noise_suffix(&self, filename: &str) -> (clean: String)
        ensures
            clean@ == clean_name(filename@),
            !is_noisy(filename@) ==> clean@ == filename@,
    {
        proof {
            lemma_stem_extension(filename@);
        }
        let (base, ext) = split_extension(filename);
        let clean_base = self.strip_stem(base.as_str());
        join_name(clean_base, ext.as_str())
    }
}

/// Puts a stem and an extension together.
pub fn join_name(base: String, ext: &str) -> (name: String)
    ensures
        name@ == base@ + ext@,
{
    base.concat(ext)
}

/// Builds the name that tells a colliding file apart: the stem of
/// `filename`, an underscore, the first eight hexadecimal digits of the
/// file's fingerprint, and the extension.
pub fn create_hashed_filename(filename: &str, digest: Fingerprint) -> (name: String)
    ensures
        name@ == hashed_name(filename@, digest),
{
    let (base, ext) = split_extension(filename);
    let short = format_short_digest(digest);
    proof {
        reveal_strlit("_");
    }
    let mut name = base;
    name.append("_");
    name.append(short.as_str());
    name.append(ext.as_str());
    name
}

} // verus!
