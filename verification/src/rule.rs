//! Rewrite rules. A rule carries a non-empty pattern and a replacement; it
//! matches a state string exactly when the pattern is a prefix of it, counted
//! and compared code point by code point.

use vstd::prelude::*;

verus! {

/// Describes a rule match: how many code points the pattern consumed and the
/// text to splice in instead.
#[derive(Debug, PartialEq, Clone)]
pub struct Match<'a> {
    len: usize,
    rewrite: &'a str,
}

impl<'a> Match<'a> {
    /// Length of the matched prefix, counted in code points.
    pub closed spec fn spec_len(&self) -> int {
        self.len as int
    }

    /// The replacement text.
    pub closed spec fn spec_rewrite(&self) -> Seq<char> {
        self.rewrite@
    }

    /// Create a new `Match`.
    pub fn new(len: usize, rewrite: &'a str) -> (m: Match<'a>)
        ensures
            m.spec_len() == len,
            m.spec_rewrite() == rewrite@,
    {
        Match { len, rewrite }
    }

    /// Return the length of the matched prefix, in code points.
    pub fn match_len(&self) -> (l: usize)
        ensures
            l == self.spec_len(),
    {
        self.len
    }

    /// Return the string to replace the match with.
    pub fn rewrite(&self) -> (r: &'a str)
        ensures
            r@ == self.spec_rewrite(),
    {
        self.rewrite
    }
}

/// The mathematical content of a rule: its pattern and its replacement, as
/// sequences of code points.
pub ghost struct RuleModel {
    pub pattern: Seq<char>,
    pub rewrite: Seq<char>,
}

/// A rule applies to the front of a state `s` when its pattern is a
/// non-empty prefix of `s`.
pub open spec fn applies(r: RuleModel, s: Seq<char>) -> bool {
    0 < r.pattern.len() && r.pattern.is_prefix_of(s)
}

/// L-system rule: rewrite an occurrence of `pattern` into `rewrite`.
#[derive(Debug)]
pub struct Rule {
    pattern: String,
    rewrite: String,
}

impl View for Rule {
    type V = RuleModel;

    closed spec fn view(&self) -> RuleModel {
        RuleModel { pattern: self.pattern@, rewrite: self.rewrite@ }
    }
}

impl Rule {
    /// An empty pattern would consume nothing and stall the rewriting pass;
    /// every rule carries a non-empty pattern.
    #[verifier::type_invariant]
    spec fn wf(&self) -> bool {
        0 < self.pattern@.len()
    }

    /// Create a new `Rule`.
    pub fn new(pattern: String, rewrite: String) -> (r: Rule)
        requires
            0 < pattern@.len(),
        ensures
            r@ == (RuleModel { pattern: pattern@, rewrite: rewrite@ }),
    {
        Rule { pattern, rewrite }
    }

    /// First code point of the pattern.
    pub(crate) fn head(&self) -> (c: char)
        ensures
            0 < self@.pattern.len(),
            c == self@.pattern[0],
    {
        proof {
            use_type_invariant(&*self);
        }
        self.pattern.as_str().get_char(0)
    }

    /// Check whether the rule matches a prefix of the supplied string, and if
    /// so, return the length of the match and the rewrite value.
    pub fn matches<'a>(&'a self, s: &str) -> (m: Option<Match<'a>>)
        ensures
            0 < self@.pattern.len(),
            m is Some <==> self@.pattern.is_prefix_of(s@),
            m matches Some(mm) ==> mm.spec_len() == self@.pattern.len()
                && mm.spec_rewrite() == self@.rewrite,
    {
        proof {
            use_type_invariant(&*self);
        }
        let pat = self.pattern.as_str();
        let plen = pat.unicode_len();
        let slen = s.unicode_len();
        if plen > slen {
            return None;
        }
        let mut k: usize = 0;
        while k < plen
            invariant
                k <= plen,
                pat@ == self@.pattern,
                plen == self@.pattern.len(),
                slen == s@.len(),
                plen <= slen,
                forall|j: int| 0 <= j < k ==> self@.pattern[j] == s@[j],
            decreases plen - k,
        {
            if pat.get_char(k) != s.get_char(k) {
                assert(!self@.pattern.is_prefix_of(s@)) by {
                    if self@.pattern.is_prefix_of(s@) {
                        assert(self@.pattern[k as int] == s@.subrange(
                            0,
                            plen as int,
                        )[k as int]);
                    }
                }
                return None;
            }
            k += 1;
        }
        assert(self@.pattern.is_prefix_of(s@)) by {
            assert(self@.pattern =~= s@.subrange(0, plen as int));
        }
        Some(Match::new(plen, self.rewrite.as_str()))
    }
}

} // verus!
