//! Builder: accumulates alphabet, seed, rules and actions, then validates
//! them and assembles an immutable, ready-to-step system. The terminal set is
//! derived here, once: a symbol of the alphabet is terminal exactly when it
//! heads no rule's pattern, which keeps the rewriting engine's short-circuit
//! equivalent to scanning every rule at every position.

use vstd::prelude::*;

use crate::action::{table_of, Action, ActionTable};
use crate::l_system::{is_pattern_head, terminals_sound, LSystem};
use crate::rule::{Rule, RuleModel};

verus! {

/// Errors that can occur when building an L-system.
#[derive(Debug, Clone, Copy, PartialEq, Eq, Structural)]
pub enum BuildError {
    /// No alphabet supplied.
    NoAlphabet,
    /// No seed supplied.
    NoAxiom,
}

impl BuildError {
    /// A short description of the error.
    pub fn message(&self) -> (s: &'static str)
        ensures
            self is NoAlphabet ==> s@ == "no alphabet was supplied"@,
            self is NoAxiom ==> s@ == "no seed was supplied"@,
    {
        match self {
            BuildError::NoAlphabet => "no alphabet was supplied",
            BuildError::NoAxiom => "no seed was supplied",
        }
    }
}

/// L-system builder.
pub struct Builder {
    actions: Vec<(char, Action)>,
    alphabet: Option<Vec<char>>,
    seed: Option<String>,
    rules: Vec<Rule>,
}

impl Builder {
    /// The accumulated action bindings.
    pub closed spec fn spec_actions(&self) -> Seq<(char, Action)> {
        self.actions@
    }

    /// The accumulated alphabet, if one was supplied.
    pub closed spec fn spec_alphabet(&self) -> Option<Seq<char>> {
        match self.alphabet {
            Some(v) => Some(v@),
            None => None,
        }
    }

    /// The accumulated seed, if one was supplied.
    pub closed spec fn spec_seed(&self) -> Option<Seq<char>> {
        match self.seed {
            Some(s) => Some(s@),
            None => None,
        }
    }

    /// The accumulated rule list.
    pub closed spec fn spec_rules(&self) -> Seq<RuleModel> {
        self.rules@.map_values(|r: Rule| r@)
    }

    /// Create a new `Builder` with nothing supplied yet.
    pub fn new() -> (b: Builder)
        ensures
            b.spec_actions() == Seq::<(char, Action)>::empty(),
            b.spec_alphabet() is None,
            b.spec_seed() is None,
            b.spec_rules() == Seq::<RuleModel>::empty(),
    {
        let b = Builder { actions: Vec::new(), alphabet: None, seed: None, rules: Vec::new() };
        proof {
            assert(b.spec_rules() =~= Seq::<RuleModel>::empty());
        }
        b
    }

    /// Set the L-system actions; a later binding for the same symbol shadows
    /// an earlier one.
    pub fn actions(&mut self, actions: Vec<(char, Action)>)
        ensures
            final(self).spec_actions() == actions@,
            final(self).spec_alphabet() == old(self).spec_alphabet(),
            final(self).spec_seed() == old(self).spec_seed(),
            final(self).spec_rules() == old(self).spec_rules(),
    {
        self.actions = actions;
    }

    /// Set the L-system rules.
    pub fn rules(&mut self, rules: Vec<Rule>)
        ensures
            final(self).spec_rules() == rules@.map_values(|r: Rule| r@),
            final(self).spec_actions() == old(self).spec_actions(),
            final(self).spec_alphabet() == old(self).spec_alphabet(),
            final(self).spec_seed() == old(self).spec_seed(),
    {
        self.rules = rules;
    }

    /// Set the L-system alphabet.
    pub fn alphabet(&mut self, alphabet: Vec<char>)
        ensures
            final(self).spec_alphabet() == Some(alphabet@),
            final(self).spec_actions() == old(self).spec_actions(),
            final(self).spec_seed() == old(self).spec_seed(),
            final(self).spec_rules() == old(self).spec_rules(),
    {
        self.alphabet = Some(alphabet);
    }

    /// Set the L-system seed.
    pub fn seed(&mut self, seed: &str)
        ensures
            final(self).spec_seed() == Some(seed@),
            final(self).spec_actions() == old(self).spec_actions(),
            final(self).spec_alphabet() == old(self).spec_alphabet(),
            final(self).spec_rules() == old(self).spec_rules(),
    {
        self.seed = Some(String::from_str(seed));
    }

    /// Build the L-system: fails with `NoAlphabet` if no alphabet was
    /// supplied, then with `NoAxiom` if no seed was supplied; otherwise
    /// derives the terminal set and returns the assembled system.
    pub fn build(self) -> (r: Result<LSystem, BuildError>)
        ensures
            self.spec_alphabet() is None ==> r == Err::<LSystem, BuildError>(
                BuildError::NoAlphabet,
            ),
            self.spec_alphabet() is Some && self.spec_seed() is None ==> r == Err::<
                LSystem,
                BuildError,
            >(BuildError::NoAxiom),
            self.spec_alphabet() matches Some(alpha) ==> (self.spec_seed() matches Some(ax) ==> (
            r matches Ok(sys) && sys.spec_state() == ax && sys.spec_rules() == self.spec_rules()
                && sys.spec_actions() == table_of(self.spec_actions()) && (forall|c: char|
                sys.spec_terminals().contains(c) <==> (alpha.contains(c) && !is_pattern_head(
                    self.spec_rules(),
                    c,
                ))))),
    {
        let Builder { actions, alphabet, seed, rules } = self;
        let alphabet = match alphabet {
            Some(a) => a,
            None => {
                return Err(BuildError::NoAlphabet);
            },
        };
        let seed = match seed {
            Some(a) => a,
            None => {
                return Err(BuildError::NoAxiom);
            },
        };
        let ghost rules_m = rules@.map_values(|r: Rule| r@);
        let mut terminals: Vec<char> = Vec::new();
        let mut i: usize = 0;
        while i < alphabet.len()
            invariant
                i <= alphabet.len(),
                rules_m == rules@.map_values(|r: Rule| r@),
                forall|c: char| #[trigger]
                    terminals@.contains(c) ==> (alphabet@.contains(c) && !is_pattern_head(
                        rules_m,
                        c,
                    )),
                forall|k: int|
                    0 <= k < i ==> (is_pattern_head(rules_m, #[trigger] alphabet@[k])
                        || terminals@.contains(alphabet@[k])),
            decreases alphabet.len() - i,
        {
            let c = alphabet[i];
            if !heads_char(&rules, c) {
                let ghost before = terminals@;
                terminals.push(c);
                proof {
                    broadcast use vstd::seq_lib::group_seq_properties;

                    assert(terminals@ == before.push(c));
                    assert(alphabet@.contains(c)) by {
                        assert(alphabet@[i as int] == c);
                    }
                    assert forall|d: char| #[trigger] terminals@.contains(d) implies (
                    alphabet@.contains(d) && !is_pattern_head(rules_m, d)) by {
                        let idx = choose|idx: int|
                            0 <= idx < terminals@.len() && terminals@[idx] == d;
                        if idx < before.len() {
                            assert(before[idx] == d);
                            assert(before.contains(d));
                        } else {
                            assert(d == c);
                        }
                    }
                    assert forall|k: int| 0 <= k < i + 1 implies (is_pattern_head(
                        rules_m,
                        #[trigger] alphabet@[k],
                    ) || terminals@.contains(alphabet@[k])) by {
                        if k < i {
                            if before.contains(alphabet@[k]) {
                                let idx = choose|idx: int|
                                    0 <= idx < before.len() && before[idx] == alphabet@[k];
                                assert(terminals@[idx] == alphabet@[k]);
                            }
                        } else {
                            assert(terminals@[before.len() as int] == c);
                        }
                    }
                }
            }
            i += 1;
        }
        proof {
            assert(terminals_sound(terminals@, rules_m));
        }
        let sys = LSystem::new(seed, rules, ActionTable::new(actions), terminals);
        proof {
            assert forall|c: char| #[trigger]
                sys.spec_terminals().contains(c) <==> (alphabet@.contains(c) && !is_pattern_head(
                    rules_m,
                    c,
                )) by {
                if alphabet@.contains(c) && !is_pattern_head(rules_m, c) {
                    let k = choose|k: int| 0 <= k < alphabet@.len() && alphabet@[k] == c;
                    assert(is_pattern_head(rules_m, alphabet@[k]) || terminals@.contains(
                        alphabet@[k],
                    ));
                }
            }
        }
        Ok(sys)
    }
}

impl Default for Builder {
    /// Same as `Builder::new`: a builder with nothing supplied yet.
    fn default() -> (b: Builder)
        ensures
            b.spec_actions() == Seq::<(char, Action)>::empty(),
            b.spec_alphabet() is None,
            b.spec_seed() is None,
            b.spec_rules() == Seq::<RuleModel>::empty(),
    {
        Builder::new()
    }
}

/// Does some rule's pattern start with `c`?
fn heads_char(rules: &Vec<Rule>, c: char) -> (r: bool)
    ensures
        r == is_pattern_head(rules@.map_values(|rr: Rule| rr@), c),
{
    let ghost rules_m = rules@.map_values(|rr: Rule| rr@);
    let mut j: usize = 0;
    while j < rules.len()
        invariant
            j <= rules.len(),
            rules_m == rules@.map_values(|rr: Rule| rr@),
            forall|k: int|
                0 <= k < j ==> !(0 < (#[trigger] rules_m[k]).pattern.len() && rules_m[k].pattern[0]
                    == c),
        decreases rules.len() - j,
    {
        let h = rules[j].head();
        proof {
            assert(rules_m[j as int] == rules@[j as int]@);
        }
        if h == c {
            proof {
                assert(0 < rules_m[j as int].pattern.len() && rules_m[j as int].pattern[0] == c);
            }
            return true;
        }
        j += 1;
    }
    false
}

} // verus!
