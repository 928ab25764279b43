//! Assembling a preset from its parsed tables: the system name is resolved,
//! every parameter expression is compiled (the first bad one is the error),
//! and the structural tables of the line systems are validated.
use vstd::prelude::*;

use crate::expr::{compile, spec_compile, Expr, ExprError, SpecNode, SpecExprError};
use crate::lines::{curve_family_of_name, CurveFamily};
use crate::schema::{
    lsystem_outcome, system_of_name, validate_lsystem, LSystemError, LSystemTable, SystemKind,
};

verus! {

/// A named parameter bound to a compiled expression.
#[derive(Debug)]
pub struct Binding {
    /// The system parameter this drives (e.g. `warp`, `hue`).
    pub name: String,
    /// The compiled expression producing its per-frame value.
    pub expr: Expr,
}

/// The resolved head of a preset: its name, system and compiled bindings.
#[derive(Debug)]
pub struct PresetHead {
    /// Human-readable name (the system name if none was given).
    pub name: String,
    /// Which built-in system the preset drives.
    pub system: SystemKind,
    /// Parameter bindings, in the order the parameters were given.
    pub params: Vec<Binding>,
}

/// Why a preset failed to assemble. Every variant is recoverable: the caller
/// keeps the previous good preset.
#[derive(Debug)]
pub enum PresetError {
    /// `system` named a built-in that does not exist.
    UnknownSystem(String),
    /// A parameter's expression failed to compile.
    Expr {
        /// The parameter whose expression was invalid.
        param: String,
        /// The compile error.
        err: ExprError,
    },
    /// A `[curve]` table named an unknown family.
    UnknownCurveFamily(String),
    /// A generator system was given no `[generator]` table.
    MissingGenerator(SystemKind),
    /// The L-system `[generator]` table was invalid.
    LSystem(LSystemError),
}

/// The raw fields of a `[generator]` table that the L-system reads, with the
/// turn angle's finiteness decided by the caller, who holds the number.
pub struct GeneratorFields {
    /// The start string, if the table has one.
    pub start: Option<String>,
    /// The production rules, in table order.
    pub rules: Vec<(String, String)>,
    /// Whether the turn angle is a finite number.
    pub angle_finite: bool,
    /// The iteration depth, if the table has one.
    pub max_depth: Option<u32>,
}

/// The index of the first parameter whose expression does not compile.
pub open spec fn first_failing(params: Seq<(String, String)>) -> Option<int>
    decreases params.len(),
{
    if params.len() == 0 {
        None
    } else if spec_compile(params[0].1@) is Err {
        Some(0)
    } else {
        match first_failing(params.drop_first()) {
            Some(i) => Some(i + 1),
            None => None,
        }
    }
}

/// A binding holds the named parameter's compiled expression.
pub open spec fn binds(b: Binding, param: (String, String)) -> bool {
    b.name@ == param.0@ && spec_compile(param.1@) == Ok::<SpecNode, SpecExprError>(b.expr.view())
}

/// Compile every parameter expression, in order. The first parameter whose
/// expression fails is reported with its compile error; otherwise each
/// parameter gets its binding.
pub fn compile_bindings(params: &Vec<(String, String)>) -> (res: Result<Vec<Binding>, PresetError>)
    ensures
        match first_failing(params@) {
            Some(i) => res matches Err(PresetError::Expr { param, err }) && param@ == params@[i].0@
                && spec_compile(params@[i].1@) == Err::<SpecNode, SpecExprError>(err.view()),
            None => res matches Ok(bs) && bs@.len() == params@.len() && forall|j: int|
                #![trigger bs@[j]]
                0 <= j < params@.len() ==> binds(bs@[j], params@[j]),
        },
{
    let mut out: Vec<Binding> = Vec::new();
    let mut i: usize = 0;
    assert(params@.skip(0) =~= params@);
    while i < params.len()
        invariant
            i <= params@.len(),
            out@.len() == i,
            forall|j: int| #![trigger out@[j]] 0 <= j < i ==> binds(out@[j], params@[j]),
            first_failing(params@) == match first_failing(params@.skip(i as int)) {
                Some(k) => Some(k + i),
                None => None,
            },
        decreases params.len() - i,
    {
        let ghost rest = params@.skip(i as int);
        assert(rest.drop_first() =~= params@.skip(i + 1));
        assert(rest[0] == params@[i as int]);
        match compile(params[i].1.as_str()) {
            Ok(expr) => {
                let name = params[i].0.clone();
                out.push(Binding { name, expr });
                assert(binds(out@[i as int], params@[i as int]));
            },
            Err(err) => {
                let param = params[i].0.clone();
                return Err(PresetError::Expr { param, err });
            },
        }
        i = i + 1;
    }
    assert(params@.skip(i as int).len() == 0);
    Ok(out)
}

/// Resolve the system, name and bindings of a preset. The system is checked
/// first, then the parameters in order; an omitted name defaults to the
/// system's name as written.
pub fn assemble_preset(system: String, name: Option<String>, params: &Vec<(String, String)>) -> (res:
    Result<PresetHead, PresetError>)
    ensures
        system_of_name(system@) is None ==> (res matches Err(PresetError::UnknownSystem(s)) && s@
            == system@),
        system_of_name(system@) is Some ==> match first_failing(params@) {
            Some(i) => res matches Err(PresetError::Expr { param, err }) && param@ == params@[i].0@
                && spec_compile(params@[i].1@) == Err::<SpecNode, SpecExprError>(err.view()),
            None => res matches Ok(h) && h.system == system_of_name(system@)->Some_0 && h.name@
                == (match name {
                Some(n) => n@,
                None => system@,
            }) && h.params@.len() == params@.len() && forall|j: int|
                #![trigger h.params@[j]]
                0 <= j < params@.len() ==> binds(h.params@[j], params@[j]),
        },
{
    let kind = match SystemKind::from_name(system.as_str()) {
        Some(k) => k,
        None => return Err(PresetError::UnknownSystem(system)),
    };
    let name = match name {
        Some(n) => n,
        None => system,
    };
    let params = compile_bindings(params)?;
    Ok(PresetHead { name, system: kind, params })
}

/// Which structural table a system reads at load.
#[derive(Debug, Clone, Copy, PartialEq, Eq, Structural)]
pub enum ConfigTable {
    /// No structural config: the system is driven by its parameters alone.
    NoTable,
    /// An optional `[curve]` table (the family default without one).
    Curve,
    /// A required `[generator]` table.
    Generator,
    /// An optional `[particles]` table (the default family without one).
    Particles,
}

/// The structural table each system reads.
pub open spec fn spec_config_table(system: SystemKind) -> ConfigTable {
    match system {
        SystemKind::ParametricCurve => ConfigTable::Curve,
        SystemKind::LSystem | SystemKind::StarPattern => ConfigTable::Generator,
        SystemKind::Attractor => ConfigTable::Particles,
        SystemKind::FragmentField | SystemKind::Swarm | SystemKind::ReactionDiffusion =>
            ConfigTable::NoTable,
    }
}

/// The structural table `system` reads at load: the parametric curve an
/// optional `[curve]`, the L-system and the star pattern a required
/// `[generator]`, the attractor an optional `[particles]`, and the other
/// systems none.
pub fn config_table(system: SystemKind) -> (t: ConfigTable)
    ensures
        t == spec_config_table(system),
{
    match system {
        SystemKind::ParametricCurve => ConfigTable::Curve,
        SystemKind::LSystem => ConfigTable::Generator,
        SystemKind::StarPattern => ConfigTable::Generator,
        SystemKind::Attractor => ConfigTable::Particles,
        SystemKind::FragmentField => ConfigTable::NoTable,
        SystemKind::Swarm => ConfigTable::NoTable,
        SystemKind::ReactionDiffusion => ConfigTable::NoTable,
    }
}

/// A system that requires a `[generator]` table has one: `Ok` when the table
/// is present or the system reads no generator, and otherwise the
/// missing-generator error naming the system.
pub fn require_generator(system: SystemKind, present: bool) -> (res: Result<(), PresetError>)
    ensures
        (present || spec_config_table(system) != ConfigTable::Generator) ==> res is Ok,
        (!present && spec_config_table(system) == ConfigTable::Generator) ==> (res matches Err(
            PresetError::MissingGenerator(k),
        ) && k == system),
{
    if !present && config_table(system) == ConfigTable::Generator {
        Err(PresetError::MissingGenerator(system))
    } else {
        Ok(())
    }
}

/// The curve family a `[curve]` table selects: no table accepts the family
/// default, an unknown family name is an error.
pub fn curve_config(family: Option<String>) -> (res: Result<Option<CurveFamily>, PresetError>)
    ensures
        family is None ==> res matches Ok(None),
        family matches Some(f) ==> match curve_family_of_name(f@) {
            Some(c) => res matches Ok(Some(got)) && got == c,
            None => res matches Err(PresetError::UnknownCurveFamily(s)) && s@ == f@,
        },
{
    match family {
        None => Ok(None),
        Some(f) => match CurveFamily::from_name(f.as_str()) {
            Some(c) => Ok(Some(c)),
            None => Err(PresetError::UnknownCurveFamily(f)),
        },
    }
}

/// The L-system structure a `[generator]` table declares: the table is
/// required, and its fields are validated as [`validate_lsystem`] does.
pub fn lsystem_config(generator: Option<GeneratorFields>) -> (res: Result<LSystemTable, PresetError>)
    ensures
        generator is None ==> (res matches Err(PresetError::MissingGenerator(k)) && k
            == SystemKind::LSystem),
        generator matches Some(g) ==> match res {
            Ok(t) => lsystem_outcome(g.start, g.rules@, g.angle_finite, g.max_depth, Ok(t)),
            Err(PresetError::LSystem(e)) => lsystem_outcome(
                g.start,
                g.rules@,
                g.angle_finite,
                g.max_depth,
                Err(e),
            ),
            Err(_) => false,
        },
{
    match generator {
        None => Err(PresetError::MissingGenerator(SystemKind::LSystem)),
        Some(g) => match validate_lsystem(g.start, g.rules, g.angle_finite, g.max_depth) {
            Ok(t) => Ok(t),
            Err(e) => Err(PresetError::LSystem(e)),
        },
    }
}

} // verus!
