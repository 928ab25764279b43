//! The preset schema's naming and structural rules: which built-in system a
//! preset drives, and the checks an L-system `[generator]` table must pass.
use vstd::prelude::*;

use crate::text::str_eq;

verus! {

/// Hard clamp on L-system iteration depth, enforced at preset load.
pub const MAX_LSYSTEM_DEPTH: u32 = 7;

/// The built-in system a preset drives; unknown names are rejected at load.
#[derive(Debug, Clone, Copy, PartialEq, Eq, Structural)]
pub enum SystemKind {
    /// The fullscreen fragment-field scene.
    FragmentField,
    /// The CPU particle-swarm scene.
    Swarm,
    /// The parametric line-curve scene.
    ParametricCurve,
    /// The L-system generator scene.
    LSystem,
    /// The Hankin star-pattern generator scene.
    StarPattern,
    /// The Gray-Scott reaction-diffusion feedback scene.
    ReactionDiffusion,
    /// The compute-particle strange-attractor scene.
    Attractor,
}

/// The canonical name of a system, as written in a preset's `system` field.
pub open spec fn system_name(k: SystemKind) -> Seq<char> {
    match k {
        SystemKind::FragmentField => "fragment_field"@,
        SystemKind::Swarm => "swarm"@,
        SystemKind::ParametricCurve => "parametric_curve"@,
        SystemKind::LSystem => "lsystem"@,
        SystemKind::StarPattern => "star_pattern"@,
        SystemKind::ReactionDiffusion => "reaction_diffusion"@,
        SystemKind::Attractor => "attractor"@,
    }
}

/// The system a name denotes, if any.
pub open spec fn system_of_name(name: Seq<char>) -> Option<SystemKind> {
    if name == "fragment_field"@ {
        Some(SystemKind::FragmentField)
    } else if name == "swarm"@ {
        Some(SystemKind::Swarm)
    } else if name == "parametric_curve"@ {
        Some(SystemKind::ParametricCurve)
    } else if name == "lsystem"@ {
        Some(SystemKind::LSystem)
    } else if name == "star_pattern"@ {
        Some(SystemKind::StarPattern)
    } else if name == "reaction_diffusion"@ {
        Some(SystemKind::ReactionDiffusion)
    } else if name == "attractor"@ {
        Some(SystemKind::Attractor)
    } else {
        None
    }
}

impl SystemKind {
    /// Parse a canonical system name into its kind, or `None` if unknown.
    pub fn from_name(name: &str) -> (r: Option<SystemKind>)
        ensures
            r == system_of_name(name@),
    {
        if str_eq(name, "fragment_field") {
            Some(SystemKind::FragmentField)
        } else if str_eq(name, "swarm") {
            Some(SystemKind::Swarm)
        } else if str_eq(name, "parametric_curve") {
            Some(SystemKind::ParametricCurve)
        } else if str_eq(name, "lsystem") {
            Some(SystemKind::LSystem)
        } else if str_eq(name, "star_pattern") {
            Some(SystemKind::StarPattern)
        } else if str_eq(name, "reaction_diffusion") {
            Some(SystemKind::ReactionDiffusion)
        } else if str_eq(name, "attractor") {
            Some(SystemKind::Attractor)
        } else {
            None
        }
    }

    /// The canonical name of this system, the string `from_name` accepts.
    pub fn as_str(self) -> (s: &'static str)
        ensures
            s@ == system_name(self),
    {
        match self {
            SystemKind::FragmentField => "fragment_field",
            SystemKind::Swarm => "swarm",
            SystemKind::ParametricCurve => "parametric_curve",
            SystemKind::LSystem => "lsystem",
            SystemKind::StarPattern => "star_pattern",
            SystemKind::ReactionDiffusion => "reaction_diffusion",
            SystemKind::Attractor => "attractor",
        }
    }
}

/// `from_name` and `as_str` are inverses: every kind's name parses back to
/// that kind, and a name parses to a kind only if it is that kind's name.
pub proof fn law_system_names_round_trip(k: SystemKind, name: Seq<char>)
    ensures
        system_of_name(system_name(k)) == Some(k),
        system_of_name(name) == Some(k) ==> name == system_name(k),
{
    reveal_strlit("fragment_field");
    reveal_strlit("swarm");
    reveal_strlit("parametric_curve");
    reveal_strlit("lsystem");
    reveal_strlit("star_pattern");
    reveal_strlit("reaction_diffusion");
    reveal_strlit("attractor");
    assert("fragment_field"@.len() == 14);
    assert("swarm"@.len() == 5);
    assert("parametric_curve"@.len() == 16);
    assert("lsystem"@.len() == 7);
    assert("star_pattern"@.len() == 12);
    assert("reaction_diffusion"@.len() == 18);
    assert("attractor"@.len() == 9);
    assert("swarm"@ != "attractor"@);
}

/// Why an L-system `[generator]` table was rejected.
#[derive(Debug, Clone, PartialEq, Eq)]
pub enum LSystemError {
    /// The start string is missing or empty.
    EmptyAxiom,
    /// A rule key is not exactly one character.
    RuleKeyNotOneChar(String),
    /// The table declares no rules.
    NoRules,
    /// The turn angle is not a finite number.
    AngleNotFinite,
    /// `max_depth` is outside `1..=MAX_LSYSTEM_DEPTH`.
    DepthOutOfRange(u32),
}

/// A validated L-system structure: the start string, the single-character
/// rules in table order, and the iteration depth.
#[derive(Debug, Clone, PartialEq, Eq)]
pub struct LSystemTable {
    /// The non-empty start string.
    pub start: String,
    /// Production rules `(predecessor, successor)`.
    pub rules: Vec<(char, String)>,
    /// Iterations to precompute, in `1..=MAX_LSYSTEM_DEPTH`.
    pub max_depth: u32,
}

/// The index of the first rule whose key is not a single character, if any.
pub open spec fn first_bad_key(keys: Seq<Seq<char>>) -> Option<int>
    decreases keys.len(),
{
    if keys.len() == 0 {
        None
    } else if keys[0].len() != 1 {
        Some(0)
    } else {
        match first_bad_key(keys.drop_first()) {
            Some(i) => Some(i + 1),
            None => None,
        }
    }
}

/// The rule keys as plain values.
pub open spec fn rule_keys(rules: Seq<(String, String)>) -> Seq<Seq<char>> {
    rules.map_values(|r: (String, String)| r.0@)
}

/// The depth a table without `max_depth` gets.
pub open spec fn depth_or_default(max_depth: Option<u32>) -> u32 {
    match max_depth {
        Some(d) => d,
        None => 4,
    }
}

/// What validating an L-system table gives: the first failing check's
/// error, or the table with single-character keys and the depth (default 4).
pub open spec fn lsystem_outcome(
    start: Option<String>,
    rules: Seq<(String, String)>,
    angle_finite: bool,
    max_depth: Option<u32>,
    res: Result<LSystemTable, LSystemError>,
) -> bool {
    &&& (start is None || start.unwrap()@.len() == 0) ==> res == Err::<LSystemTable, LSystemError>(
        LSystemError::EmptyAxiom,
    )
    &&& start is Some && start.unwrap()@.len() > 0 ==> match first_bad_key(rule_keys(rules)) {
        Some(i) => res matches Err(LSystemError::RuleKeyNotOneChar(k)) && k@ == rules[i].0@,
        None => if rules.len() == 0 {
            res == Err::<LSystemTable, LSystemError>(LSystemError::NoRules)
        } else if !angle_finite {
            res == Err::<LSystemTable, LSystemError>(LSystemError::AngleNotFinite)
        } else if depth_or_default(max_depth) == 0 || depth_or_default(max_depth)
            > MAX_LSYSTEM_DEPTH {
            res == Err::<LSystemTable, LSystemError>(
                LSystemError::DepthOutOfRange(depth_or_default(max_depth)),
            )
        } else {
            res matches Ok(t) && t.start@ == start.unwrap()@ && t.max_depth == depth_or_default(
                max_depth,
            ) && t.rules@.len() == rules.len() && forall|j: int|
                #![trigger t.rules@[j]]
                0 <= j < rules.len() ==> t.rules@[j].0 == rules[j].0@[0] && t.rules@[j].1@
                    == rules[j].1@
        },
    }
}

/// Validate an L-system `[generator]` table. The checks run in order: a
/// non-empty start string, single-character rule keys (the first offender is
/// reported), at least one rule, a finite turn angle (decided by the caller,
/// who holds the number), and a depth in `1..=MAX_LSYSTEM_DEPTH` (default 4).
pub fn validate_lsystem(
    start: Option<String>,
    rules: Vec<(String, String)>,
    angle_finite: bool,
    max_depth: Option<u32>,
) -> (res: Result<LSystemTable, LSystemError>)
    ensures
        lsystem_outcome(start, rules@, angle_finite, max_depth, res),
{
    let ghost given = start;
    let text = match start {
        Some(a) => {
            if a.as_str().unicode_len() == 0 {
                return Err(LSystemError::EmptyAxiom);
            }
            a
        },
        None => return Err(LSystemError::EmptyAxiom),
    };
    let mut table: Vec<(char, String)> = Vec::new();
    let mut i: usize = 0;
    let ghost keys = rule_keys(rules@);
    assert(keys.skip(0) =~= keys);
    while i < rules.len()
        invariant
            i <= rules@.len(),
            given == Some(text),
            given == start,
            text@.len() > 0,
            keys == rule_keys(rules@),
            first_bad_key(keys) == match first_bad_key(keys.skip(i as int)) {
                Some(k) => Some(k + i),
                None => None,
            },
            table@.len() == i,
            forall|j: int|
                #![trigger table@[j]]
                0 <= j < i ==> table@[j].0 == rules@[j].0@[0] && table@[j].1@ == rules@[j].1@,
        decreases rules.len() - i,
    {
        let ghost rest = keys.skip(i as int);
        assert(rest.drop_first() =~= keys.skip(i + 1));
        assert(rest[0] == rules@[i as int].0@);
        let key = rules[i].0.as_str();
        if key.unicode_len() != 1 {
            return Err(LSystemError::RuleKeyNotOneChar(rules[i].0.clone()));
        }
        let c = key.get_char(0);
        let succ = rules[i].1.clone();
        assert(succ@ == rules@[i as int].1@);
        assert(c == rules@[i as int].0@[0]);
        table.push((c, succ));
        assert(table@[i as int].1@ == rules@[i as int].1@);
        i = i + 1;
    }
    assert(keys.skip(i as int).len() == 0);
    if table.len() == 0 {
        return Err(LSystemError::NoRules);
    }
    if !angle_finite {
        return Err(LSystemError::AngleNotFinite);
    }
    let depth = match max_depth {
        Some(d) => d,
        None => 4,
    };
    if depth == 0 || depth > MAX_LSYSTEM_DEPTH {
        return Err(LSystemError::DepthOutOfRange(depth));
    }
    Ok(LSystemTable { start: text, rules: table, max_depth: depth })
}

} // verus!
