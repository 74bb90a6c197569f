//! The core of the L-system: the rewriting engine. One `step` produces the
//! next generation from the current state in a single left-to-right,
//! non-overlapping pass; replacements are not rescanned within the same pass.

use vstd::prelude::*;

use crate::action::{Action, ActionTable};
use crate::builder::Builder;
use crate::rule::{applies, Rule, RuleModel};

verus! {

/// Errors that an L-system can encounter.
#[derive(Debug, Clone, Copy, PartialEq, Eq, Structural)]
pub enum Error {
    /// Attempt to pop an empty stack.
    PopEmptyStack,
}

/// The first rule in declaration order that applies to the front of `s`.
/// This is the designed tie-break: no attempt is made to prefer the longest
/// pattern across different rules.
pub open spec fn find_match(rules: Seq<RuleModel>, s: Seq<char>) -> Option<RuleModel>
    decreases rules.len(),
{
    if rules.len() == 0 {
        None
    } else if applies(rules[0], s) {
        Some(rules[0])
    } else {
        find_match(rules.skip(1), s)
    }
}

/// A found match applies to `s`.
pub proof fn lemma_find_match_applies(rules: Seq<RuleModel>, s: Seq<char>)
    ensures
        find_match(rules, s) matches Some(r) ==> applies(r, s),
    decreases rules.len(),
{
    if rules.len() > 0 && !applies(rules[0], s) {
        lemma_find_match_applies(rules.skip(1), s);
    }
}

/// One generation of rewriting over `s`: at each position the first rule
/// whose pattern is a prefix of the rest is applied and the pass jumps over
/// the consumed pattern; where no rule applies, one code point is copied
/// through verbatim.
pub open spec fn rewritten(rules: Seq<RuleModel>, s: Seq<char>) -> Seq<char>
    decreases s.len(),
    via rewritten_decreases
{
    if s.len() == 0 {
        Seq::empty()
    } else {
        match find_match(rules, s) {
            Some(r) => r.rewrite + rewritten(rules, s.skip(r.pattern.len() as int)),
            None => seq![s[0]] + rewritten(rules, s.skip(1)),
        }
    }
}

#[via_fn]
proof fn rewritten_decreases(rules: Seq<RuleModel>, s: Seq<char>) {
    lemma_find_match_applies(rules, s);
}

/// A symbol heads a rule set when some rule's pattern starts with it.
pub open spec fn is_pattern_head(rules: Seq<RuleModel>, c: char) -> bool {
    exists|i: int|
        0 <= i < rules.len() && 0 < (#[trigger] rules[i]).pattern.len() && rules[i].pattern[0]
            == c
}

/// A terminal set is sound for a rule set when no terminal heads a rule: at a
/// terminal symbol, skipping the rule scan cannot change the outcome.
pub open spec fn terminals_sound(terminals: Seq<char>, rules: Seq<RuleModel>) -> bool {
    forall|c: char| terminals.contains(c) ==> !is_pattern_head(rules, c)
}

/// No rule matches at a symbol that heads no rule.
pub proof fn lemma_no_head_no_match(rules: Seq<RuleModel>, s: Seq<char>)
    requires
        0 < s.len(),
        !is_pattern_head(rules, s[0]),
    ensures
        find_match(rules, s) is None,
    decreases rules.len(),
{
    if rules.len() > 0 {
        if applies(rules[0], s) {
            assert(rules[0].pattern[0] == s.subrange(0, rules[0].pattern.len() as int)[0]);
            assert(is_pattern_head(rules, s[0])) by {
                assert(0 < (rules[0]).pattern.len() && rules[0].pattern[0] == s[0]);
            }
        }
        assert(!is_pattern_head(rules.skip(1), s[0])) by {
            if is_pattern_head(rules.skip(1), s[0]) {
                let i = choose|i: int|
                    0 <= i < rules.skip(1).len() && 0 < (#[trigger] rules.skip(1)[i]).pattern.len()
                        && rules.skip(1)[i].pattern[0] == s[0];
                assert(rules[i + 1] == rules.skip(1)[i]);
                assert(is_pattern_head(rules, s[0]));
            }
        }
        lemma_no_head_no_match(rules.skip(1), s);
    }
}

/// If `rules[j]` applies and no earlier rule does, the scan finds `rules[j]`.
pub proof fn lemma_find_match_first(rules: Seq<RuleModel>, s: Seq<char>, j: int)
    requires
        0 <= j < rules.len(),
        applies(rules[j], s),
        forall|k: int| 0 <= k < j ==> !applies(#[trigger] rules[k], s),
    ensures
        find_match(rules, s) == Some(rules[j]),
    decreases j,
{
    if j > 0 {
        assert(!applies(rules[0], s));
        assert forall|k: int| 0 <= k < j - 1 implies !applies(
            #[trigger] rules.skip(1)[k],
            s,
        ) by {
            assert(rules.skip(1)[k] == rules[k + 1]);
        }
        assert(rules.skip(1)[j - 1] == rules[j]);
        lemma_find_match_first(rules.skip(1), s, j - 1);
    }
}

/// If no rule applies, the scan finds nothing.
pub proof fn lemma_find_match_none(rules: Seq<RuleModel>, s: Seq<char>)
    requires
        forall|k: int| 0 <= k < rules.len() ==> !applies(#[trigger] rules[k], s),
    ensures
        find_match(rules, s) is None,
    decreases rules.len(),
{
    if rules.len() > 0 {
        assert forall|k: int| 0 <= k < rules.len() - 1 implies !applies(
            #[trigger] rules.skip(1)[k],
            s,
        ) by {
            assert(rules.skip(1)[k] == rules[k + 1]);
        }
        lemma_find_match_none(rules.skip(1), s);
    }
}

/// Rewriting a state under an empty rule set copies it through unchanged.
pub proof fn lemma_empty_rules_identity(s: Seq<char>)
    ensures
        rewritten(Seq::<RuleModel>::empty(), s) == s,
    decreases s.len(),
{
    if s.len() > 0 {
        lemma_empty_rules_identity(s.skip(1));
        assert(rewritten(Seq::<RuleModel>::empty(), s) =~= s);
    }
}

/// Rewriting is deterministic: equal rule sets applied to equal states give
/// equal next states, so repeated stepping yields identical state sequences.
pub proof fn lemma_rewrite_deterministic(
    rules1: Seq<RuleModel>,
    rules2: Seq<RuleModel>,
    s1: Seq<char>,
    s2: Seq<char>,
)
    requires
        rules1 == rules2,
        s1 == s2,
    ensures
        rewritten(rules1, s1) == rewritten(rules2, s2),
{
}

/// A symbol that rewriting may emit: one of the state's own symbols, or one
/// from some rule's replacement.
pub open spec fn symbol_from(rules: Seq<RuleModel>, s: Seq<char>, c: char) -> bool {
    s.contains(c) || exists|i: int|
        0 <= i < rules.len() && (#[trigger] rules[i]).rewrite.contains(c)
}

/// A found match is one of the rules.
pub proof fn lemma_find_match_mem(rules: Seq<RuleModel>, s: Seq<char>)
    ensures
        find_match(rules, s) matches Some(r) ==> exists|i: int|
            0 <= i < rules.len() && #[trigger] rules[i] == r,
    decreases rules.len(),
{
    if rules.len() > 0 {
        if applies(rules[0], s) {
        } else {
            lemma_find_match_mem(rules.skip(1), s);
            if find_match(rules.skip(1), s) is Some {
                let r = find_match(rules.skip(1), s)->Some_0;
                let i = choose|i: int| 0 <= i < rules.skip(1).len() && rules.skip(1)[i] == r;
                assert(rules[i + 1] == r);
            }
        }
    }
}

/// Symbol-level safety: rewriting operates on whole code points, so every
/// symbol of the output is a symbol of the input or of some rule's
/// replacement, never a fragment of one.
pub proof fn lemma_rewritten_symbols(rules: Seq<RuleModel>, s: Seq<char>)
    ensures
        forall|i: int|
            0 <= i < rewritten(rules, s).len() ==> symbol_from(
                rules,
                s,
                #[trigger] rewritten(rules, s)[i],
            ),
    decreases s.len(),
{
    if s.len() > 0 {
        lemma_find_match_applies(rules, s);
        lemma_find_match_mem(rules, s);
        let out = rewritten(rules, s);
        match find_match(rules, s) {
            Some(r) => {
                let rest = s.skip(r.pattern.len() as int);
                lemma_rewritten_symbols(rules, rest);
                assert forall|i: int| 0 <= i < out.len() implies symbol_from(
                    rules,
                    s,
                    #[trigger] out[i],
                ) by {
                    if i < r.rewrite.len() {
                        assert(r.rewrite.contains(out[i])) by {
                            assert(r.rewrite[i] == out[i]);
                        }
                    } else {
                        let j = i - r.rewrite.len();
                        assert(out[i] == rewritten(rules, rest)[j]);
                        assert(symbol_from(rules, rest, out[i]));
                        if rest.contains(out[i]) {
                            let k = choose|k: int| 0 <= k < rest.len() && rest[k] == out[i];
                            assert(s[k + r.pattern.len()] == out[i]);
                            assert(s.contains(out[i]));
                        }
                    }
                }
            },
            None => {
                let rest = s.skip(1);
                lemma_rewritten_symbols(rules, rest);
                assert forall|i: int| 0 <= i < out.len() implies symbol_from(
                    rules,
                    s,
                    #[trigger] out[i],
                ) by {
                    if i == 0 {
                        assert(out[0] == s[0]);
                        assert(s.contains(s[0]));
                    } else {
                        assert(out[i] == rewritten(rules, rest)[i - 1]);
                        assert(symbol_from(rules, rest, out[i]));
                        if rest.contains(out[i]) {
                            let k = choose|k: int| 0 <= k < rest.len() && rest[k] == out[i];
                            assert(s[k + 1] == out[i]);
                            assert(s.contains(out[i]));
                        }
                    }
                }
            },
        }
    }
}

/// One generation of rewriting with the terminal short-circuit: at a symbol
/// in the terminal set the rule scan is skipped entirely.
pub open spec fn rewritten_shortcircuit(
    rules: Seq<RuleModel>,
    terminals: Seq<char>,
    s: Seq<char>,
) -> Seq<char>
    decreases s.len(),
    via rewritten_shortcircuit_decreases
{
    if s.len() == 0 {
        Seq::empty()
    } else if terminals.contains(s[0]) {
        seq![s[0]] + rewritten_shortcircuit(rules, terminals, s.skip(1))
    } else {
        match find_match(rules, s) {
            Some(r) => r.rewrite + rewritten_shortcircuit(
                rules,
                terminals,
                s.skip(r.pattern.len() as int),
            ),
            None => seq![s[0]] + rewritten_shortcircuit(rules, terminals, s.skip(1)),
        }
    }
}

#[via_fn]
proof fn rewritten_shortcircuit_decreases(
    rules: Seq<RuleModel>,
    terminals: Seq<char>,
    s: Seq<char>,
) {
    lemma_find_match_applies(rules, s);
}

/// Terminal short-circuit equivalence: with a sound terminal set, skipping
/// the rule scan at terminal symbols produces exactly the output of scanning
/// every rule at every position, for every state.
pub proof fn lemma_shortcircuit_equivalence(
    rules: Seq<RuleModel>,
    terminals: Seq<char>,
    s: Seq<char>,
)
    requires
        terminals_sound(terminals, rules),
    ensures
        rewritten_shortcircuit(rules, terminals, s) == rewritten(rules, s),
    decreases s.len(),
{
    if s.len() > 0 {
        if terminals.contains(s[0]) {
            lemma_no_head_no_match(rules, s);
            lemma_shortcircuit_equivalence(rules, terminals, s.skip(1));
        } else {
            lemma_find_match_applies(rules, s);
            match find_match(rules, s) {
                Some(r) => {
                    lemma_shortcircuit_equivalence(
                        rules,
                        terminals,
                        s.skip(r.pattern.len() as int),
                    );
                },
                None => {
                    lemma_shortcircuit_equivalence(rules, terminals, s.skip(1));
                },
            }
        }
    }
}

/// Lindenmayer system: the current state string, the ordered rule list, the
/// action table, and the derived terminal set.
#[derive(Debug)]
pub struct LSystem {
    state: String,
    rules: Vec<Rule>,
    actions: ActionTable,
    terminals: Vec<char>,
}

impl LSystem {
    /// The current generation, as a sequence of code points.
    pub closed spec fn spec_state(&self) -> Seq<char> {
        self.state@
    }

    /// The ordered rule list.
    pub closed spec fn spec_rules(&self) -> Seq<RuleModel> {
        self.rules@.map_values(|r: Rule| r@)
    }

    /// The action table.
    pub closed spec fn spec_actions(&self) -> Map<char, Action> {
        self.actions@
    }

    /// The derived terminal set.
    pub closed spec fn spec_terminals(&self) -> Seq<char> {
        self.terminals@
    }

    /// The terminal set is derived at construction so that skipping the rule
    /// scan at a terminal never changes the output.
    #[verifier::type_invariant]
    spec fn inv(&self) -> bool {
        terminals_sound(self.terminals@, self.spec_rules())
    }

    /// Create a new `LSystem`.
    pub(crate) fn new(
        seed: String,
        rules: Vec<Rule>,
        actions: ActionTable,
        terminals: Vec<char>,
    ) -> (sys: LSystem)
        requires
            terminals_sound(terminals@, rules@.map_values(|r: Rule| r@)),
        ensures
            sys.spec_state() == seed@,
            sys.spec_rules() == rules@.map_values(|r: Rule| r@),
            sys.spec_actions() == actions@,
            sys.spec_terminals() == terminals@,
    {
        LSystem { state: seed, rules, actions, terminals }
    }

    /// Return an L-system `Builder`.
    pub fn builder() -> (b: Builder)
        ensures
            b.spec_actions() == Seq::<(char, Action)>::empty(),
            b.spec_alphabet() is None,
            b.spec_seed() is None,
            b.spec_rules() == Seq::<RuleModel>::empty(),
    {
        Builder::new()
    }

    /// Return the state of the L-system.
    pub fn state(&self) -> (s: &str)
        ensures
            s@ == self.spec_state(),
    {
        self.state.as_str()
    }

    /// Return the actions handled by the L-system.
    pub fn actions(&self) -> (t: &ActionTable)
        ensures
            t@ == self.spec_actions(),
    {
        &self.actions
    }

    /// Perform one rewriting generation on the L-system. Rewriting has no
    /// failure modes for a validated system; the result is always `Ok`.
    pub fn step(&mut self) -> (r: Result<(), Error>)
        ensures
            r is Ok,
            final(self).spec_state() == rewritten(old(self).spec_rules(), old(self).spec_state()),
            final(self).spec_rules() == old(self).spec_rules(),
            final(self).spec_actions() == old(self).spec_actions(),
            final(self).spec_terminals() == old(self).spec_terminals(),
    {
        proof {
            use_type_invariant(&*self);
        }
        let ghost rules_m = self.spec_rules();
        let ghost s0 = self.state@;
        let mut new_state = String::new();
        let mut ptr: &str = self.state.as_str();
        let mut ptr_len: usize = ptr.unicode_len();
        while ptr_len > 0
            invariant
                ptr_len == ptr@.len(),
                *self == *old(self),
                rules_m == self.spec_rules(),
                s0 == self.state@,
                terminals_sound(self.terminals@, rules_m),
                new_state@ + rewritten(rules_m, ptr@) == rewritten(rules_m, s0),
            decreases ptr_len,
        {
            let c = ptr.get_char(0);
            let mut jump: usize = 1;
            let mut match_found = false;
            let ghost pre = new_state@;
            if !contains_char(&self.terminals, c) {
                match scan_rules(&self.rules, ptr) {
                    Some(m) => {
                        new_state.append(m.rewrite());
                        jump = m.match_len();
                        match_found = true;
                        proof {
                            lemma_find_match_applies(rules_m, ptr@);
                            let r = find_match(rules_m, ptr@)->Some_0;
                            assert(rewritten(rules_m, ptr@) == r.rewrite + rewritten(
                                rules_m,
                                ptr@.skip(jump as int),
                            ));
                            assert((pre + r.rewrite) + rewritten(rules_m, ptr@.skip(jump as int))
                                =~= pre + (r.rewrite + rewritten(rules_m, ptr@.skip(jump as int))));
                        }
                    },
                    None => {},
                }
            } else {
                proof {
                    assert(self.terminals@.contains(c));
                    lemma_no_head_no_match(rules_m, ptr@);
                }
            }
            if !match_found {
                let one = ptr.substring_char(0, 1);
                new_state.append(one);
                proof {
                    assert(find_match(rules_m, ptr@) is None);
                    assert(rewritten(rules_m, ptr@) == seq![ptr@[0]] + rewritten(
                        rules_m,
                        ptr@.skip(1),
                    ));
                    assert(one@ =~= seq![ptr@[0]]);
                    assert((pre + one@) + rewritten(rules_m, ptr@.skip(1)) =~= pre + (seq![ptr@[0]]
                        + rewritten(rules_m, ptr@.skip(1))));
                }
            }
            ptr = ptr.substring_char(jump, ptr_len);
            ptr_len = ptr_len - jump;
        }
        proof {
            assert(rewritten(rules_m, ptr@) =~= Seq::<char>::empty());
            assert(new_state@ + Seq::<char>::empty() =~= new_state@);
            use_type_invariant(&*self);
        }
        self.state = new_state;
        Ok(())
    }
}

/// Linear membership test on the terminal vector.
fn contains_char(v: &Vec<char>, c: char) -> (r: bool)
    ensures
        r == v@.contains(c),
{
    let mut i: usize = 0;
    while i < v.len()
        invariant
            i <= v.len(),
            forall|k: int| 0 <= k < i ==> v@[k] != c,
        decreases v.len() - i,
    {
        if v[i] == c {
            assert(v@.contains(c)) by {
                assert(v@[i as int] == c);
            }
            return true;
        }
        i += 1;
    }
    false
}

/// Scan the rule list in declaration order for the first rule whose pattern
/// is a prefix of `ptr`.
fn scan_rules<'a>(rules: &'a Vec<Rule>, ptr: &str) -> (m: Option<crate::rule::Match<'a>>)
    ensures
        ({
            let rules_m = rules@.map_values(|r: Rule| r@);
            match m {
                Some(mm) => find_match(rules_m, ptr@) matches Some(r) && mm.spec_len()
                    == r.pattern.len() && mm.spec_rewrite() == r.rewrite && 0 < mm.spec_len(),
                None => find_match(rules_m, ptr@) is None,
            }
        }),
{
    let ghost rules_m = rules@.map_values(|r: Rule| r@);
    let mut j: usize = 0;
    while j < rules.len()
        invariant
            j <= rules.len(),
            rules_m == rules@.map_values(|r: Rule| r@),
            forall|k: int| 0 <= k < j ==> !applies(#[trigger] rules_m[k], ptr@),
        decreases rules.len() - j,
    {
        let rule = &rules[j];
        let res = rule.matches(ptr);
        proof {
            assert(rules_m[j as int] == rule@);
        }
        match res {
            Some(m) => {
                proof {
                    assert(applies(rules_m[j as int], ptr@));
                    lemma_find_match_first(rules_m, ptr@, j as int);
                }
                return Some(m);
            },
            None => {},
        }
        j += 1;
    }
    proof {
        lemma_find_match_none(rules_m, ptr@);
    }
    None
}

} // verus!
