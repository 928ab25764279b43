use vstd::prelude::*;

use crate::text::push_char;

verus! {

/// The production rules as plain values: `(predecessor, successor)` pairs.
pub open spec fn rules_view(rules: Seq<(char, String)>) -> Seq<(char, Seq<char>)> {
    rules.map_values(|r: (char, String)| (r.0, r.1@))
}

/// The successor of the first rule whose predecessor is `c`, if any.
pub open spec fn rule_for(rules: Seq<(char, Seq<char>)>, c: char) -> Option<Seq<char>>
    decreases rules.len(),
{
    if rules.len() == 0 {
        None
    } else if rules[0].0 == c {
        Some(rules[0].1)
    } else {
        rule_for(rules.drop_first(), c)
    }
}

/// What one character becomes in one rewriting step: its rule's successor, or
/// the character itself when no rule names it.
pub open spec fn rewrite_char(rules: Seq<(char, Seq<char>)>, c: char) -> Seq<char> {
    match rule_for(rules, c) {
        Some(succ) => succ,
        None => seq![c],
    }
}

/// One parallel rewriting step over a whole string.
pub open spec fn rewrite(rules: Seq<(char, Seq<char>)>, s: Seq<char>) -> Seq<char>
    decreases s.len(),
{
    if s.len() == 0 {
        Seq::empty()
    } else {
        rewrite(rules, s.drop_last()) + rewrite_char(rules, s.last())
    }
}

/// `start` rewritten `depth` times.
pub open spec fn expansion(
    start: Seq<char>,
    rules: Seq<(char, Seq<char>)>,
    depth: nat,
) -> Seq<char>
    decreases depth,
{
    if depth == 0 {
        start
    } else {
        rewrite(rules, expansion(start, rules, (depth - 1) as nat))
    }
}

/// The successor of the first rule naming `ch`, found by a scan.
fn find_rule<'a>(rules: &'a [(char, String)], ch: char) -> (res: Option<&'a String>)
    ensures
        match rule_for(rules_view(rules@), ch) {
            Some(succ) => res is Some && res.unwrap()@ == succ,
            None => res is None,
        },
{
    let mut i: usize = 0;
    assert(rules_view(rules@).skip(0) =~= rules_view(rules@));
    while i < rules.len()
        invariant
            i <= rules@.len(),
            rule_for(rules_view(rules@), ch) == rule_for(rules_view(rules@).skip(i as int), ch),
        decreases rules.len() - i,
    {
        let ghost rest = rules_view(rules@).skip(i as int);
        assert(rest.drop_first() =~= rules_view(rules@).skip(i + 1));
        assert(rest[0] == (rules@[i as int].0, rules@[i as int].1@));
        if rules[i].0 == ch {
            return Some(&rules[i].1);
        }
        i = i + 1;
    }
    assert(rules_view(rules@).skip(i as int).len() == 0);
    None
}

/// Apply one rewriting step to `current`.
fn rewrite_once(current: &String, rules: &[(char, String)]) -> (next: String)
    ensures
        next@ == rewrite(rules_view(rules@), current@),
{
    let ghost rv = rules_view(rules@);
    let mut next = String::new();
    for ch in it: current.chars()
        invariant
            it.seq() == current@,
            next@ == rewrite(rv, current@.take(it.index() as int)),
            rv == rules_view(rules@),
    {
        let ghost k = it.index();
        assert(current@.take(k + 1).drop_last() =~= current@.take(k as int));
        match find_rule(rules, ch) {
            Some(succ) => next.append(succ.as_str()),
            None => push_char(&mut next, ch),
        }
        assert(next@ =~= rewrite(rv, current@.take(k + 1)));
    }
    assert(current@.take(current@.len() as int) =~= current@);
    next
}

/// Expand `start` by applying `rules` `depth` times. Each rule is
/// `(predecessor, successor)`; a character with no matching rule maps to
/// itself, and when several rules name a character the first wins.
pub fn expand(start: &str, rules: &[(char, String)], depth: u32) -> (res: String)
    ensures
        res@ == expansion(start@, rules_view(rules@), depth as nat),
{
    let mut current = start.to_owned();
    let mut d: u32 = 0;
    while d < depth
        invariant
            d <= depth,
            current@ == expansion(start@, rules_view(rules@), d as nat),
        decreases depth - d,
    {
        current = rewrite_once(&current, rules);
        d = d + 1;
    }
    current
}

/// Rewriting distributes over concatenation: each character is rewritten
/// independently of its neighbours.
pub proof fn law_rewrite_concat(rules: Seq<(char, Seq<char>)>, s: Seq<char>, t: Seq<char>)
    ensures
        rewrite(rules, s + t) == rewrite(rules, s) + rewrite(rules, t),
    decreases t.len(),
{
    if t.len() == 0 {
        assert(s + t =~= s);
        assert(rewrite(rules, s) + rewrite(rules, t) =~= rewrite(rules, s));
    } else {
        assert((s + t).drop_last() =~= s + t.drop_last());
        assert((s + t).last() == t.last());
        law_rewrite_concat(rules, s, t.drop_last());
        assert(rewrite(rules, s + t) =~= rewrite(rules, s) + rewrite(rules, t));
    }
}

/// Expansion distributes over concatenation at every depth: expanding a
/// concatenation is concatenating the expansions of its parts.
pub proof fn law_expansion_concat(
    rules: Seq<(char, Seq<char>)>,
    s: Seq<char>,
    t: Seq<char>,
    depth: nat,
)
    ensures
        expansion(s + t, rules, depth) == expansion(s, rules, depth) + expansion(t, rules, depth),
    decreases depth,
{
    if depth > 0 {
        law_expansion_concat(rules, s, t, (depth - 1) as nat);
        law_rewrite_concat(
            rules,
            expansion(s, rules, (depth - 1) as nat),
            expansion(t, rules, (depth - 1) as nat),
        );
    }
}

/// A ruled character is replaced by its rule's successor exactly, an empty
/// successor included (which erases it), and a character no rule names is
/// kept as itself.
pub proof fn law_one_char_rewrites_to_its_successor(rules: Seq<(char, Seq<char>)>, c: char)
    ensures
        rule_for(rules, c) matches Some(succ) ==> rewrite(rules, seq![c]) == succ,
        rule_for(rules, c) is None ==> rewrite(rules, seq![c]) == seq![c],
{
    let one = seq![c];
    assert(one.drop_last() =~= Seq::<char>::empty());
    assert(one.last() == c);
    assert(rewrite(rules, Seq::<char>::empty()) == Seq::<char>::empty());
    assert(rewrite(rules, one) == rewrite(rules, one.drop_last()) + rewrite_char(rules, one.last()));
    assert(Seq::<char>::empty() + rewrite_char(rules, c) =~= rewrite_char(rules, c));
}

/// The rule for a character is the first rule naming it: a found successor
/// is the successor of some rule for `c` with no earlier rule for `c`, and
/// nothing is found only when no rule names `c`.
pub proof fn law_first_rule_wins(rules: Seq<(char, Seq<char>)>, c: char)
    ensures
        rule_for(rules, c) matches Some(succ) ==> exists|i: int|
            0 <= i < rules.len() && #[trigger] rules[i].0 == c && rules[i].1 == succ && forall|j: int|
                0 <= j < i ==> rules[j].0 != c,
        rule_for(rules, c) is None ==> forall|i: int| 0 <= i < rules.len() ==> rules[i].0 != c,
    decreases rules.len(),
{
    if rules.len() > 0 && rules[0].0 != c {
        let rest = rules.drop_first();
        law_first_rule_wins(rest, c);
        if let Some(succ) = rule_for(rules, c) {
            let i = choose|i: int|
                0 <= i < rest.len() && #[trigger] rest[i].0 == c && rest[i].1 == succ && forall|j: int|
                    0 <= j < i ==> rest[j].0 != c;
            assert(rules[i + 1] == rest[i]);
            assert forall|j: int| 0 <= j < i + 1 implies rules[j].0 != c by {
                if j > 0 {
                    assert(rules[j] == rest[j - 1]);
                }
            }
        } else {
            assert forall|i: int| 0 <= i < rules.len() implies rules[i].0 != c by {
                if i > 0 {
                    assert(rules[i] == rest[i - 1]);
                }
            }
        }
    } else if rules.len() > 0 {
        assert(rules[0].0 == c);
    }
}

/// Characters without a rule pass through: a string none of whose characters
/// is named by a rule is left unchanged by every expansion depth.
pub proof fn law_unruled_chars_pass_through(
    rules: Seq<(char, Seq<char>)>,
    s: Seq<char>,
    depth: nat,
)
    requires
        forall|i: int| 0 <= i < s.len() ==> rule_for(rules, #[trigger] s[i]) is None,
    ensures
        expansion(s, rules, depth) == s,
    decreases depth,
{
    if depth > 0 {
        law_unruled_chars_pass_through(rules, s, (depth - 1) as nat);
        lemma_rewrite_identity(rules, s);
    }
}

/// One step leaves a string with no ruled character unchanged.
proof fn lemma_rewrite_identity(rules: Seq<(char, Seq<char>)>, s: Seq<char>)
    requires
        forall|i: int| 0 <= i < s.len() ==> rule_for(rules, #[trigger] s[i]) is None,
    ensures
        rewrite(rules, s) == s,
    decreases s.len(),
{
    if s.len() > 0 {
        assert forall|i: int| 0 <= i < s.drop_last().len() implies rule_for(
            rules,
            #[trigger] s.drop_last()[i],
        ) is None by {
            assert(s.drop_last()[i] == s[i]);
        }
        lemma_rewrite_identity(rules, s.drop_last());
        assert(rule_for(rules, s[s.len() - 1]) is None);
        assert(s.drop_last() + seq![s.last()] =~= s);
    }
}

/// Expanding `d1 + d2` times is expanding `d2` times the result of `d1`
/// expansions: depths compose.
pub proof fn law_expansion_composes(
    start: Seq<char>,
    rules: Seq<(char, Seq<char>)>,
    d1: nat,
    d2: nat,
)
    ensures
        expansion(start, rules, d1 + d2) == expansion(expansion(start, rules, d1), rules, d2),
    decreases d2,
{
    if d2 > 0 {
        law_expansion_composes(start, rules, d1, (d2 - 1) as nat);
        assert((d1 + d2 - 1) as nat == d1 + (d2 - 1) as nat);
    }
}

} // verus!
