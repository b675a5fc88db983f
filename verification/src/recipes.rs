//! What makefiles say: what references stand for, and what rules and recipe lines add.

use vstd::prelude::*;

use crate::makefile::{
    expansion, expansion_from, strange_name, too_large, with_recipe, with_targets, Making, Message, Reading, Scope,
};
use crate::order::{bind, lemma_lookup_bind, lookup};
use crate::text::{index_from, joined, lemma_index_from};

verus! {

/// A reference to a variable.
pub open spec fn reference_to(name: Seq<char>) -> Seq<char> {
    seq!['$', '('] + name + seq![')']
}

/// A reference stands for what the value of its variable comes to, and for nothing where the variable is
/// not set.
pub proof fn lemma_reference(name: Seq<char>, scope: Scope, depth: nat)
    requires
        depth > 1,
        !strange_name(name),
        !name.contains(')'),
    ensures
        ({
            let value = match lookup(scope.vars, name) {
                Some(v) => v,
                None => Seq::<char>::empty(),
            };
            match expansion(value, scope, (depth - 1) as nat) {
                Ok(text) => !too_large(text) ==> expansion(reference_to(name), scope, depth) == Ok::<
                    Seq<char>,
                    Message,
                >(text),
                Err(e) => expansion(reference_to(name), scope, depth) == Err::<Seq<char>, Message>(e),
            }
        }),
{
    let s = reference_to(name);
    let n = name.len() as int;
    reveal_strlit("");
    assert(""@ =~= Seq::<char>::empty());
    assert(s[0] == '$' && s[1] == '(' && s[n + 2] == ')');
    lemma_index_from(s, ')', 2);
    match index_from(s, ')', 2) {
        Some(end) => {
            if end < n + 2 {
                assert(s[end] == name[end - 2]);
                assert(name.contains(name[end - 2]));
            }
            assert(end == n + 2);
        },
        None => {},
    }
    assert(s.subrange(2, n + 2) =~= name);
    let value = match lookup(scope.vars, name) {
        Some(v) => v,
        None => ""@,
    };
    let none: Seq<char> = seq![];
    if let Ok(text) = expansion(value, scope, (depth - 1) as nat) {
        assert(none + text =~= text);
        assert(expansion_from(s, s.len() as int, text, scope, depth) == Ok::<Seq<char>, Message>(text));
    }
}

/// What the references without a name stand for: `$$` for a dollar sign, `$@` for the target, `$<` for its
/// first prerequisite and `$^` for all of them.
pub proof fn lemma_short_references(scope: Scope, depth: nat)
    requires
        depth > 0,
    ensures
        !too_large(seq!['$']) ==> expansion(seq!['$', '$'], scope, depth) == Ok::<Seq<char>, Message>(seq!['$']),
        !too_large(scope.target) ==> expansion(seq!['$', '@'], scope, depth) == Ok::<Seq<char>, Message>(
            scope.target,
        ),
        scope.prerequisites.len() > 0 && !too_large(scope.prerequisites[0]) ==> expansion(
            seq!['$', '<'],
            scope,
            depth,
        ) == Ok::<Seq<char>, Message>(scope.prerequisites[0]),
        !too_large(joined(scope.prerequisites, " "@)) ==> expansion(seq!['$', '^'], scope, depth) == Ok::<
            Seq<char>,
            Message,
        >(joined(scope.prerequisites, " "@)),
{
    let none: Seq<char> = seq![];
    assert(none.push('$') =~= seq!['$']);
    assert(none + scope.target =~= scope.target);
    if scope.prerequisites.len() > 0 {
        assert(none + scope.prerequisites[0] =~= scope.prerequisites[0]);
    }
    let all = joined(scope.prerequisites, " "@);
    assert(none + all =~= all);
    lemma_two(seq!['$', '$'], seq!['$'], scope, depth);
    lemma_two(seq!['$', '@'], scope.target, scope, depth);
    if scope.prerequisites.len() > 0 {
        lemma_two(seq!['$', '<'], scope.prerequisites[0], scope, depth);
    }
    lemma_two(seq!['$', '^'], all, scope, depth);
}

proof fn lemma_two(s: Seq<char>, text: Seq<char>, scope: Scope, depth: nat)
    requires
        s.len() == 2,
        depth > 0,
    ensures
        expansion_from(s, 2, text, scope, depth) == Ok::<Seq<char>, Message>(text),
{
}

/// Whether no name stands twice in a list.
pub open spec fn once_each(v: Seq<Seq<char>>) -> bool {
    forall|i: int, j: int| 0 <= i < j < v.len() ==> #[trigger] v[i] != #[trigger] v[j]
}

/// A recipe line goes to each target of the rule, behind the lines that it has, and to no other.
pub proof fn lemma_recipe_goes_to_targets(
    rules: Seq<(Seq<char>, Making)>,
    targets: Seq<Seq<char>>,
    line: (int, Seq<char>),
    name: Seq<char>,
)
    requires
        with_recipe(rules, targets, line) is Ok,
        once_each(targets),
    ensures
        ({
            let after = with_recipe(rules, targets, line)->Ok_0;
            &&& targets.contains(name) ==> lookup(rules, name) is Some && lookup(after, name) == Some(
                Making {
                    prerequisites: lookup(rules, name)->0.prerequisites,
                    recipes: lookup(rules, name)->0.recipes.push(line),
                },
            )
            &&& !targets.contains(name) ==> lookup(after, name) == lookup(rules, name)
        }),
    decreases targets.len(),
{
    if targets.len() > 0 {
        let first = targets[0];
        let rest = targets.subrange(1, targets.len() as int);
        let m = lookup(rules, first)->0;
        let making = Making { prerequisites: m.prerequisites, recipes: m.recipes.push(line) };
        let next = bind(rules, first, making);
        lemma_lookup_bind(rules, first, making, name);
        assert forall|i: int, j: int| 0 <= i < j < rest.len() implies #[trigger] rest[i] != #[trigger] rest[j] by {
            assert(rest[i] == targets[i + 1] && rest[j] == targets[j + 1]);
        }
        lemma_recipe_goes_to_targets(next, rest, line, name);
        if rest.contains(name) {
            let k = choose|k: int| 0 <= k < rest.len() && rest[k] == name;
            assert(targets[k + 1] == name);
            assert(targets[0] != targets[k + 1]);
        }
        if targets.contains(name) && name != first {
            let k = choose|k: int| 0 <= k < targets.len() && targets[k] == name;
            assert(rest[k - 1] == name);
        }
        if name == first {
            assert(targets[0] == name);
        }
    }
}

/// A rule gives each of its targets the prerequisites, behind those that it has, and leaves every other
/// target as it was.
pub proof fn lemma_rule_gives_prerequisites(
    r: Reading,
    names: Seq<Seq<char>>,
    prerequisites: Seq<Seq<char>>,
    n: int,
    name: Seq<char>,
)
    requires
        with_targets(r, names, prerequisites, n) is Ok,
        once_each(names),
    ensures
        ({
            let after = with_targets(r, names, prerequisites, n)->Ok_0.sheet.rules;
            &&& names.contains(name) ==> lookup(after, name) == Some(
                match lookup(r.sheet.rules, name) {
                    Some(m) => Making { prerequisites: m.prerequisites + prerequisites, recipes: m.recipes },
                    None => Making { prerequisites, recipes: seq![] },
                },
            )
            &&& !names.contains(name) ==> lookup(after, name) == lookup(r.sheet.rules, name)
        }),
    decreases names.len(),
{
    if names.len() > 0 {
        let first = names[0];
        let rest = names.subrange(1, names.len() as int);
        let known = lookup(r.sheet.rules, first);
        let old_rule = match known {
            Some(m) => m,
            None => Making { prerequisites: seq![], recipes: seq![] },
        };
        let rule = Making { prerequisites: old_rule.prerequisites + prerequisites, recipes: old_rule.recipes };
        let next = Reading {
            sheet: crate::makefile::Sheet {
                rules: bind(r.sheet.rules, first, rule),
                order: if known is None {
                    r.sheet.order.push(first)
                } else {
                    r.sheet.order
                },
                ..r.sheet
            },
            targets: r.targets.push(first),
            prior: r.prior || old_rule.recipes.len() > 0,
            recipes: r.recipes,
        };
        let none: Seq<Seq<char>> = seq![];
        assert(none + prerequisites =~= prerequisites);
        lemma_lookup_bind(r.sheet.rules, first, rule, name);
        assert forall|i: int, j: int| 0 <= i < j < rest.len() implies #[trigger] rest[i] != #[trigger] rest[j] by {
            assert(rest[i] == names[i + 1] && rest[j] == names[j + 1]);
        }
        lemma_rule_gives_prerequisites(next, rest, prerequisites, n, name);
        if rest.contains(name) {
            let k = choose|k: int| 0 <= k < rest.len() && rest[k] == name;
            assert(names[k + 1] == name);
            assert(names[0] != names[k + 1]);
        }
        if names.contains(name) && name != first {
            let k = choose|k: int| 0 <= k < names.len() && names[k] == name;
            assert(rest[k - 1] == name);
        }
        if name == first {
            assert(names[0] == name);
        }
    }
}

} // verus!
