//! A checker that resolves string tokens against a registry of per-token
//! rules.
//!
//! The registry maps each token to a [`Rule`] that decides how the token
//! behaves on repeated lookups: a [`Rule::Once`] yields its role at most one
//! time and is then removed, while a [`Rule::Multiple`] invokes a caller
//! supplied generator on every lookup and is never removed by a lookup.

use vstd::prelude::*;

verus! {

/// How a single registered token resolves on repeated lookups.
pub enum Rule<T, F> {
    /// A one-shot rule: a slot holding at most one live role value. The first
    /// lookup takes the role out and removes the whole registry entry.
    Once(Option<T>),
    /// A regenerable rule: a role-producing function, invoked fresh on every
    /// lookup; it may decline by returning `None`.
    Multiple(F),
}

/// The result a lookup of `token` may return when the registry holds
/// `registry`: nothing for an unregistered token, the slot's content for a
/// one-shot rule, and whatever the generator produces for a regenerable rule.
pub open spec fn lookup_result<T, F: Fn() -> Option<T>>(
    registry: Map<Seq<char>, Rule<T, F>>,
    token: Seq<char>,
    role: Option<T>,
) -> bool {
    if registry.contains_key(token) {
        match registry[token] {
            Rule::Once(slot) => role == slot,
            Rule::Multiple(generator) => call_ensures(generator, (), role),
        }
    } else {
        role is None
    }
}

/// The registry a lookup of `token` leaves behind: a one-shot rule's entry is
/// removed unconditionally, every other registry is left unchanged.
pub open spec fn registry_after_lookup<T, F: Fn() -> Option<T>>(
    registry: Map<Seq<char>, Rule<T, F>>,
    token: Seq<char>,
) -> Map<Seq<char>, Rule<T, F>> {
    if registry.contains_key(token) && registry[token] is Once {
        registry.remove(token)
    } else {
        registry
    }
}

/// Whether a rule may be applied: a regenerable rule must hold a generator
/// whose precondition permits a fresh zero-argument call.
spec fn rule_callable<T, F: Fn() -> Option<T>>(rule: Rule<T, F>) -> bool {
    match rule {
        Rule::Once(_) => true,
        Rule::Multiple(generator) => call_requires(generator, ()),
    }
}

/// A token checker keyed by exact string equality.
///
/// The checker is generic over the role type `T`, which it never inspects,
/// and over the generator type `F` stored by regenerable rules. Its abstract
/// state, the view `self@`, is the registry: a map from token contents to the
/// rule registered for that token.
#[verifier::reject_recursive_types(T)]
pub struct StringChecker<T, F: Fn() -> Option<T>> {
    tokens: Vec<(String, Rule<T, F>)>,
}

impl<T, F: Fn() -> Option<T>> View for StringChecker<T, F> {
    type V = Map<Seq<char>, Rule<T, F>>;

    closed spec fn view(&self) -> Map<Seq<char>, Rule<T, F>> {
        Self::entry_map(self.tokens@)
    }
}

impl<T, F: Fn() -> Option<T>> StringChecker<T, F> {
    /// The entries hold pairwise distinct tokens, so the registry they stand
    /// for is read off unambiguously.
    spec fn keys_unique(entries: Seq<(String, Rule<T, F>)>) -> bool {
        forall|i: int, j: int|
            0 <= i < j < entries.len() ==> entries[i].0@ != entries[j].0@
    }

    /// The registry that a sequence of token/rule entries stands for.
    spec fn entry_map(entries: Seq<(String, Rule<T, F>)>) -> Map<Seq<char>, Rule<T, F>>
        decreases entries.len(),
    {
        if entries.len() == 0 {
            Map::empty()
        } else {
            Self::entry_map(entries.drop_last()).insert(entries.last().0@, entries.last().1)
        }
    }

    #[verifier::type_invariant]
    spec fn wf(self) -> bool {
        &&& Self::keys_unique(self.tokens@)
        &&& forall|i: int|
            0 <= i < self.tokens@.len() ==> rule_callable((#[trigger] self.tokens@[i]).1)
    }

    proof fn lemma_entry_map_contains(entries: Seq<(String, Rule<T, F>)>, token: Seq<char>)
        ensures
            Self::entry_map(entries).contains_key(token) <==> exists|i: int|
                0 <= i < entries.len() && entries[i].0@ == token,
        decreases entries.len(),
    {
        if entries.len() > 0 {
            Self::lemma_entry_map_contains(entries.drop_last(), token);
            if entries.last().0@ == token {
                assert(entries[entries.len() - 1].0@ == token);
            } else {
                if Self::entry_map(entries).contains_key(token) {
                    let i = choose|i: int|
                        0 <= i < entries.drop_last().len() && entries.drop_last()[i].0@ == token;
                    assert(entries[i].0@ == token);
                }
                if exists|i: int| 0 <= i < entries.len() && entries[i].0@ == token {
                    let i = choose|i: int| 0 <= i < entries.len() && entries[i].0@ == token;
                    assert(entries.drop_last()[i].0@ == token);
                }
            }
        }
    }

    proof fn lemma_keys_unique_drop_last(entries: Seq<(String, Rule<T, F>)>)
        requires
            Self::keys_unique(entries),
            entries.len() > 0,
        ensures
            Self::keys_unique(entries.drop_last()),
    {
        assert forall|i: int, j: int|
            0 <= i < j < entries.drop_last().len() implies entries.drop_last()[i].0@
            != entries.drop_last()[j].0@ by {
            assert(entries[i].0@ != entries[j].0@);
        }
    }

    proof fn lemma_entry_map_get(entries: Seq<(String, Rule<T, F>)>, i: int)
        requires
            Self::keys_unique(entries),
            0 <= i < entries.len(),
        ensures
            Self::entry_map(entries).contains_key(entries[i].0@),
            Self::entry_map(entries)[entries[i].0@] == entries[i].1,
        decreases entries.len(),
    {
        if i < entries.len() - 1 {
            Self::lemma_keys_unique_drop_last(entries);
            Self::lemma_entry_map_get(entries.drop_last(), i);
            assert(entries[i].0@ != entries[entries.len() - 1].0@);
        }
    }

    proof fn lemma_entry_map_remove(entries: Seq<(String, Rule<T, F>)>, i: int)
        requires
            Self::keys_unique(entries),
            0 <= i < entries.len(),
        ensures
            Self::keys_unique(entries.remove(i)),
            forall|j: int|
                0 <= j < entries.remove(i).len() ==> (#[trigger] entries.remove(i)[j]).0@
                    != entries[i].0@,
            Self::entry_map(entries.remove(i)) == Self::entry_map(entries).remove(entries[i].0@),
        decreases entries.len(),
    {
        entries.remove_ensures(i);
        assert forall|j: int|
            0 <= j < entries.remove(i).len() implies (entries.remove(i)[j]).0@
            != entries[i].0@ by {
            if j < i {
                assert(entries.remove(i)[j] == entries[j]);
                assert(entries[j].0@ != entries[i].0@);
            } else {
                assert(entries.remove(i)[j] == entries[j + 1]);
                assert(entries[i].0@ != entries[j + 1].0@);
            }
        }
        assert forall|p: int, q: int|
            0 <= p < q < entries.remove(i).len() implies entries.remove(i)[p].0@
            != entries.remove(i)[q].0@ by {
            let p0: int = if p < i { p } else { p + 1 };
            let q0: int = if q < i { q } else { q + 1 };
            assert(entries.remove(i)[p] == entries[p0]);
            assert(entries.remove(i)[q] == entries[q0]);
            assert(entries[p0].0@ != entries[q0].0@);
        }
        if i == entries.len() - 1 {
            assert(entries.remove(i) =~= entries.drop_last());
            Self::lemma_keys_unique_drop_last(entries);
            Self::lemma_entry_map_contains(entries.drop_last(), entries[i].0@);
            assert forall|j: int|
                0 <= j < entries.drop_last().len() implies entries.drop_last()[j].0@
                != entries[i].0@ by {
                assert(entries[j].0@ != entries[i].0@);
            }
            assert(Self::entry_map(entries.remove(i)) =~= Self::entry_map(entries).remove(
                entries[i].0@,
            ));
        } else {
            let short = entries.drop_last();
            Self::lemma_keys_unique_drop_last(entries);
            Self::lemma_entry_map_remove(short, i);
            assert(entries.remove(i).drop_last() =~= short.remove(i));
            assert(entries.remove(i).last() == entries.last());
            assert(entries[i].0@ != entries[entries.len() - 1].0@);
            assert(Self::entry_map(entries.remove(i)) =~= Self::entry_map(entries).remove(
                entries[i].0@,
            ));
        }
    }

    proof fn lemma_rules_callable_remove(entries: Seq<(String, Rule<T, F>)>, i: int)
        requires
            0 <= i < entries.len(),
            forall|j: int| 0 <= j < entries.len() ==> rule_callable((#[trigger] entries[j]).1),
        ensures
            forall|j: int|
                0 <= j < entries.remove(i).len() ==> rule_callable(
                    (#[trigger] entries.remove(i)[j]).1,
                ),
    {
        entries.remove_ensures(i);
        assert forall|j: int|
            0 <= j < entries.remove(i).len() implies rule_callable((entries.remove(i)[j]).1) by {
            if j < i {
                assert(entries.remove(i)[j] == entries[j]);
            } else {
                assert(entries.remove(i)[j] == entries[j + 1]);
            }
        }
    }

    proof fn lemma_entry_map_push(entries: Seq<(String, Rule<T, F>)>, pair: (String, Rule<T, F>))
        requires
            Self::keys_unique(entries),
            forall|i: int| 0 <= i < entries.len() ==> (#[trigger] entries[i]).0@ != pair.0@,
        ensures
            Self::keys_unique(entries.push(pair)),
            Self::entry_map(entries.push(pair)) == Self::entry_map(entries).insert(
                pair.0@,
                pair.1,
            ),
    {
        assert(entries.push(pair).drop_last() =~= entries);
        assert(entries.push(pair).last() == pair);
        assert forall|i: int, j: int|
            0 <= i < j < entries.push(pair).len() implies entries.push(pair)[i].0@
            != entries.push(pair)[j].0@ by {
            if j < entries.len() {
                assert(entries[i].0@ != entries[j].0@);
            } else {
                assert(entries[i].0@ != pair.0@);
            }
        }
    }

    /// Creates a checker with an empty registry.
    pub fn new() -> (checker: Self)
        ensures
            checker@ == Map::<Seq<char>, Rule<T, F>>::empty(),
    {
        StringChecker { tokens: Vec::new() }
    }

    /// Finds the entry whose token equals `token`, if any.
    fn find_index(&self, token: &String) -> (found: Option<usize>)
        ensures
            match found {
                Some(i) => i < self.tokens@.len() && self.tokens@[i as int].0@ == token@,
                None => forall|j: int|
                    0 <= j < self.tokens@.len() ==> (#[trigger] self.tokens@[j]).0@ != token@,
            },
    {
        let mut i: usize = 0;
        while i < self.tokens.len()
            invariant
                i <= self.tokens@.len(),
                forall|j: int| 0 <= j < i ==> (#[trigger] self.tokens@[j]).0@ != token@,
            decreases self.tokens@.len() - i,
        {
            if self.tokens[i].0 == *token {
                return Some(i);
            }
            i = i + 1;
        }
        None
    }

    /// Registers `rule` for `token`, replacing any rule registered before.
    fn add_rule(&mut self, token: &str, rule: Rule<T, F>)
        requires
            rule_callable(rule),
        ensures
            final(self)@ == old(self)@.insert(token@, rule),
    {
        proof {
            use_type_invariant(&*self);
        }
        let owned: String = token.to_owned();
        let found = self.find_index(&owned);
        let mut entries: Vec<(String, Rule<T, F>)> = Vec::new();
        std::mem::swap(&mut entries, &mut self.tokens);
        match found {
            Some(i) => {
                proof {
                    Self::lemma_entry_map_remove(entries@, i as int);
                    Self::lemma_rules_callable_remove(entries@, i as int);
                }
                let _ = entries.remove(i);
            },
            None => {
                proof {
                    Self::lemma_entry_map_contains(entries@, token@);
                }
            },
        }
        proof {
            Self::lemma_entry_map_push(entries@, (owned, rule));
        }
        entries.push((owned, rule));
        self.tokens = entries;
        proof {
            assert(self@ =~= old(self)@.insert(token@, rule));
        }
    }

    /// Registers a one-shot rule: the next lookup of `token` yields `role`
    /// and unregisters the token. Replaces any rule registered before.
    pub fn add_once(&mut self, token: &str, role: T)
        ensures
            final(self)@ == old(self)@.insert(token@, Rule::Once(Some(role))),
    {
        let rule = Rule::Once(Some(role));
        self.add_rule(token, rule);
    }

    /// Registers a regenerable rule: every lookup of `token` invokes
    /// `generator` afresh and yields what it produces, keeping the rule
    /// registered. Replaces any rule registered before.
    pub fn add_multiple(&mut self, token: &str, generator: F)
        requires
            call_requires(generator, ()),
        ensures
            final(self)@ == old(self)@.insert(token@, Rule::Multiple(generator)),
    {
        let rule = Rule::Multiple(generator);
        self.add_rule(token, rule);
    }

    /// Resolves `token` against the registry: nothing for an unregistered
    /// token, the slot's role for a one-shot rule (whose entry is then
    /// removed unconditionally), and a freshly generated role for a
    /// regenerable rule (whose entry stays).
    pub fn get_role_for_token(&mut self, token: &str) -> (role: Option<T>)
        ensures
            final(self)@ == registry_after_lookup(old(self)@, token@),
            lookup_result(old(self)@, token@, role),
    {
        proof {
            use_type_invariant(&*self);
        }
        let owned: String = token.to_owned();
        match self.find_index(&owned) {
            None => {
                proof {
                    Self::lemma_entry_map_contains(self.tokens@, token@);
                }
                None
            },
            Some(i) => {
                proof {
                    Self::lemma_entry_map_get(self.tokens@, i as int);
                }
                let is_once = match &self.tokens[i].1 {
                    Rule::Once(_) => true,
                    Rule::Multiple(_) => false,
                };
                if is_once {
                    proof {
                        Self::lemma_entry_map_remove(self.tokens@, i as int);
                        Self::lemma_rules_callable_remove(self.tokens@, i as int);
                    }
                    let mut entries: Vec<(String, Rule<T, F>)> = Vec::new();
                    std::mem::swap(&mut entries, &mut self.tokens);
                    let entry = entries.remove(i);
                    self.tokens = entries;
                    match entry.1 {
                        Rule::Once(slot) => slot,
                        Rule::Multiple(_) => None,
                    }
                } else {
                    match &self.tokens[i].1 {
                        Rule::Multiple(generator) => (*generator)(),
                        Rule::Once(_) => None,
                    }
                }
            },
        }
    }
}

/// One-shot consumption: once a token is registered with a one-shot rule, the
/// first lookup yields exactly the registered role and removes the entry;
/// from then on the token resolves to nothing, and no lookup of any token
/// brings the entry back, until the token is registered again.
pub proof fn lemma_once_rule_consumed<T, F: Fn() -> Option<T>>(
    registry: Map<Seq<char>, Rule<T, F>>,
    token: Seq<char>,
    role: T,
)
    ensures
        ({
            let registered = registry.insert(token, Rule::Once(Some(role)));
            let consumed = registry_after_lookup(registered, token);
            &&& forall|r: Option<T>| lookup_result(registered, token, r) <==> r == Some(role)
            &&& consumed == registered.remove(token)
            &&& !consumed.contains_key(token)
            &&& forall|r: Option<T>| lookup_result(consumed, token, r) <==> r is None
            &&& registry_after_lookup(consumed, token) == consumed
            &&& forall|other: Seq<char>|
                !(#[trigger] registry_after_lookup(consumed, other)).contains_key(token)
        }),
{
}

/// Regeneration: a token registered with a regenerable rule resolves, on
/// every lookup, to exactly what its generator produces on that call, and a
/// lookup never removes the registry entry.
pub proof fn lemma_multiple_rule_persists<T, F: Fn() -> Option<T>>(
    registry: Map<Seq<char>, Rule<T, F>>,
    token: Seq<char>,
    generator: F,
)
    ensures
        ({
            let registered = registry.insert(token, Rule::Multiple(generator));
            &&& registry_after_lookup(registered, token) == registered
            &&& registered.contains_key(token) && registered[token] == Rule::<T, F>::Multiple(
                generator,
            )
            &&& forall|r: Option<T>|
                lookup_result(registered, token, r) <==> call_ensures(generator, (), r)
        }),
{
}

/// Overwrite: registering a rule for an already-registered token replaces the
/// old rule entirely; the registry is as if only the second registration had
/// happened, and the first rule is unreachable afterwards.
pub proof fn lemma_register_overwrites<T, F: Fn() -> Option<T>>(
    registry: Map<Seq<char>, Rule<T, F>>,
    token: Seq<char>,
    first: Rule<T, F>,
    second: Rule<T, F>,
)
    ensures
        registry.insert(token, first).insert(token, second) == registry.insert(token, second),
        registry.insert(token, first).insert(token, second)[token] == second,
{
    assert(registry.insert(token, first).insert(token, second) =~= registry.insert(
        token,
        second,
    ));
}

/// Unknown token: a lookup of a token with no registered rule resolves to
/// nothing and leaves the registry unchanged.
pub proof fn lemma_unknown_token<T, F: Fn() -> Option<T>>(
    registry: Map<Seq<char>, Rule<T, F>>,
    token: Seq<char>,
)
    requires
        !registry.contains_key(token),
    ensures
        registry_after_lookup(registry, token) == registry,
        forall|r: Option<T>| lookup_result(registry, token, r) <==> r is None,
{
}

} // verus!
