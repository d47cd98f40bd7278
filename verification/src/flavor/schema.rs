//! Flavor schema: the typed data model for a G-code dialect.
//!
//! A flavor names the commands a machine dialect accepts. Each command may
//! declare typed parameters (with required flags, numeric ranges, value
//! enumerations and aliases) and cross-parameter constraints.

use vstd::prelude::*;

use crate::text::{concat5, spec_upper, str_eq_ignore_case};
use vstd::string::StringExecFns;
use crate::value::{
    decimal_grammar_ok, int_grammar_ok, scale, spec_decimal_units, spec_int_val, Decimal,
};

verus! {

/// Flavor metadata as written in a flavor definition file.
#[derive(Debug, Clone, PartialEq)]
pub struct FlavorMeta {
    pub name: String,
    pub version: Option<String>,
    pub description: Option<String>,
}

/// A flavor definition file: metadata and a list of command entries.
#[derive(Debug, PartialEq)]
pub struct FlavorFile {
    pub flavor: FlavorMeta,
    pub commands: Vec<CommandDef>,
}

/// The type a parameter value must have.
#[derive(Debug, Clone, Copy, PartialEq, Eq, Structural)]
pub enum ParameterType {
    Int,
    Float,
    String,
    Bool,
}

/// Numeric and enumeration constraints on one parameter.
#[derive(Debug, Clone, PartialEq)]
pub struct ParameterConstraints {
    pub min_value: Option<Decimal>,
    pub max_value: Option<Decimal>,
    pub enum_values: Option<Vec<String>>,
}

/// Definition of one command parameter.
#[derive(Debug, PartialEq)]
pub struct ParameterDef {
    pub name: String,
    pub param_type: ParameterType,
    pub required: bool,
    pub description: String,
    pub constraints: Option<ParameterConstraints>,
    pub aliases: Option<Vec<String>>,
}

/// The kind of a cross-parameter constraint.
#[derive(Debug, Clone, Copy, PartialEq, Eq, Structural)]
pub enum ConstraintType {
    RequireAnyOf,
}

/// A structural rule over a command's parameters as a whole, independent of
/// the per-parameter definitions.
#[derive(Debug, PartialEq)]
pub struct ParameterConstraint {
    pub constraint_type: ConstraintType,
    pub parameters: Vec<String>,
    pub message: Option<String>,
}

/// Definition of one command in a flavor.
#[derive(Debug, PartialEq)]
pub struct CommandDef {
    pub name: String,
    pub description_short: Option<String>,
    pub description_long: Option<String>,
    pub parameters: Option<Vec<ParameterDef>>,
    pub constraints: Option<Vec<ParameterConstraint>>,
}

/// True when `p` answers to `name`: its primary name or any alias,
/// compared ASCII-case-insensitively.
pub open spec fn spec_matches_name(p: &ParameterDef, name: Seq<char>) -> bool {
    ||| spec_upper(p.name@) == spec_upper(name)
    ||| (p.aliases is Some && exists|i: int|
        0 <= i < p.aliases->0@.len() && spec_upper(#[trigger] p.aliases->0@[i]@) == spec_upper(
            name,
        ))
}

impl ParameterDef {
    /// Does this parameter answer to `name` (primary name or alias)?
    pub fn matches_name(&self, name: &str) -> (r: bool)
        ensures
            r == spec_matches_name(self, name@),
    {
        if str_eq_ignore_case(self.name.as_str(), name) {
            return true;
        }
        match &self.aliases {
            None => false,
            Some(aliases) => {
                let n = aliases.len();
                let mut i: usize = 0;
                while i < n
                    invariant
                        n == aliases@.len(),
                        i <= n,
                        self.aliases is Some && aliases@ == self.aliases->0@,
                        forall|j: int|
                            0 <= j < i ==> spec_upper(#[trigger] aliases@[j]@) != spec_upper(
                                name@,
                            ),
                    decreases n - i,
                {
                    if str_eq_ignore_case(aliases[i].as_str(), name) {
                        proof {
                            assert(spec_upper(self.aliases->0@[i as int]@) == spec_upper(name@));
                        }
                        return true;
                    }
                    i = i + 1;
                }
                false
            },
        }
    }
}

/// Does the units value `u` lie within the declared range?
pub open spec fn units_in_range(u: int, c: &Option<ParameterConstraints>) -> bool {
    match c {
        None => true,
        Some(cs) => {
            &&& (cs.min_value is Some ==> u >= cs.min_value->0.units)
            &&& (cs.max_value is Some ==> u <= cs.max_value->0.units)
        },
    }
}

/// Is `v` case-insensitively among the declared enumeration values?
/// Vacuously true when no enumeration is declared.
pub open spec fn enum_ok(v: Seq<char>, c: &Option<ParameterConstraints>) -> bool {
    match c {
        None => true,
        Some(cs) => match cs.enum_values {
            None => true,
            Some(ref evs) => exists|i: int|
                0 <= i < evs@.len() && spec_upper(#[trigger] evs@[i]@) == spec_upper(v),
        },
    }
}

/// The accepted boolean words.
pub open spec fn bool_word_ok(v: Seq<char>) -> bool {
    ||| spec_upper(v) == spec_upper("true"@)
    ||| spec_upper(v) == spec_upper("false"@)
    ||| spec_upper(v) == spec_upper("1"@)
    ||| spec_upper(v) == spec_upper("0"@)
    ||| spec_upper(v) == spec_upper("on"@)
    ||| spec_upper(v) == spec_upper("off"@)
}

/// When a raw value satisfies a parameter definition: the type parses and
/// every declared constraint holds.
pub open spec fn spec_value_ok(p: &ParameterDef, v: Seq<char>) -> bool {
    match p.param_type {
        ParameterType::Int => int_grammar_ok(v) && i64::MIN <= spec_int_val(v) <= i64::MAX
            && units_in_range(spec_int_val(v) * scale(), &p.constraints),
        ParameterType::Float => decimal_grammar_ok(v) && units_in_range(
            spec_decimal_units(v),
            &p.constraints,
        ),
        ParameterType::String => enum_ok(v, &p.constraints),
        ParameterType::Bool => bool_word_ok(v),
    }
}

/// The declared enumeration values joined with ", ", for error messages
/// that list the allowed set.
pub open spec fn spec_join_comma(vs: Seq<Seq<char>>) -> Seq<char>
    decreases vs.len(),
{
    if vs.len() == 0 {
        Seq::empty()
    } else if vs.len() == 1 {
        vs[0]
    } else {
        vs[0] + ", "@ + spec_join_comma(vs.drop_first())
    }
}

/// Appending one more value extends the joined list with ", " and it.
proof fn lemma_join_comma_push(vs: Seq<Seq<char>>, x: Seq<char>)
    ensures
        spec_join_comma(vs.push(x)) == if vs.len() == 0 {
            x
        } else {
            spec_join_comma(vs) + ", "@ + x
        },
    decreases vs.len(),
{
    if vs.len() == 0 {
        assert(vs.push(x)[0] == x);
    } else if vs.len() == 1 {
        assert(vs.push(x).drop_first() =~= vs.drop_first().push(x));
        assert(vs.drop_first().push(x) =~= seq![x]);
        assert(spec_join_comma(seq![x]) == x);
    } else {
        assert(vs.push(x).drop_first() =~= vs.drop_first().push(x));
        lemma_join_comma_push(vs.drop_first(), x);
    }
}

/// The declared enumeration values of a parameter, as character sequences;
/// empty when no enumeration is declared.
pub open spec fn spec_enum_list(p: &ParameterDef) -> Seq<Seq<char>> {
    match p.constraints {
        Some(ref cs) => match cs.enum_values {
            Some(ref evs) => evs@.map_values(|s: String| s@),
            None => Seq::empty(),
        },
        None => Seq::empty(),
    }
}

/// The diagnosis for a rejected value: which complaint `validate` raises.
pub open spec fn spec_value_err(p: &ParameterDef, v: Seq<char>) -> Seq<char> {
    match p.param_type {
        ParameterType::Int => {
            if !(int_grammar_ok(v) && i64::MIN <= spec_int_val(v) <= i64::MAX) {
                "Parameter '"@ + p.name@ + "' expects an integer, got '"@ + v + "'"@
            } else {
                "Parameter '"@ + p.name@ + "' value '"@ + v + "' is out of range"@
            }
        },
        ParameterType::Float => {
            if !decimal_grammar_ok(v) {
                "Parameter '"@ + p.name@ + "' expects a number, got '"@ + v + "'"@
            } else {
                "Parameter '"@ + p.name@ + "' value '"@ + v + "' is out of range"@
            }
        },
        ParameterType::String => "Parameter '"@ + p.name@ + "' value '"@ + v
            + "' is not one of: "@ + spec_join_comma(spec_enum_list(p)),
        ParameterType::Bool => "Parameter '"@ + p.name@
            + "' expects a boolean value (true/false, 1/0, on/off), got '"@ + v + "'"@,
    }
}

impl ParameterDef {
    /// Check a raw value against this definition: its declared type and
    /// every declared constraint. `Ok` exactly when the value is accepted;
    /// otherwise the complaint to report.
    pub fn validate(&self, value: &str) -> (r: Result<(), String>)
        ensures
            r is Ok <==> spec_value_ok(self, value@),
            r is Err ==> r->Err_0@ == spec_value_err(self, value@),
    {
        match self.param_type {
            ParameterType::Int => {
                match crate::value::parse_i64(value) {
                    None => Err(
                        concat5("Parameter '", self.name.as_str(), "' expects an integer, got '", value, "'"),
                    ),
                    Some(x) => {
                        let units: i128 = (x as i128) * 1_000_000_000;
                        if in_range_exec(units, &self.constraints) {
                            Ok(())
                        } else {
                            Err(
                                concat5("Parameter '", self.name.as_str(), "' value '", value, "' is out of range"),
                            )
                        }
                    },
                }
            },
            ParameterType::Float => {
                match Decimal::parse(value) {
                    None => Err(
                        concat5("Parameter '", self.name.as_str(), "' expects a number, got '", value, "'"),
                    ),
                    Some(d) => {
                        if in_range_exec(d.units, &self.constraints) {
                            Ok(())
                        } else {
                            Err(
                                concat5("Parameter '", self.name.as_str(), "' value '", value, "' is out of range"),
                            )
                        }
                    },
                }
            },
            ParameterType::String => {
                if enum_ok_exec(value, &self.constraints) {
                    Ok(())
                } else {
                    // the check can only fail when an enumeration is declared
                    match &self.constraints {
                        Some(cs) => match &cs.enum_values {
                            Some(evs) => {
                                let mut m = concat5(
                                    "Parameter '",
                                    self.name.as_str(),
                                    "' value '",
                                    value,
                                    "' is not one of: ",
                                );
                                let joined = join_comma(evs);
                                m.append(joined.as_str());
                                Err(m)
                            },
                            None => {
                                proof {
                                    assert(false);
                                }
                                Err(String::new())
                            },
                        },
                        None => {
                            proof {
                                assert(false);
                            }
                            Err(String::new())
                        },
                    }
                }
            },
            ParameterType::Bool => {
                if str_eq_ignore_case(value, "true") || str_eq_ignore_case(value, "false")
                    || str_eq_ignore_case(value, "1") || str_eq_ignore_case(value, "0")
                    || str_eq_ignore_case(value, "on") || str_eq_ignore_case(value, "off") {
                    Ok(())
                } else {
                    Err(
                        concat5(
                            "Parameter '",
                            self.name.as_str(),
                            "' expects a boolean value (true/false, 1/0, on/off), got '",
                            value,
                            "'",
                        ),
                    )
                }
            },
        }
    }
}

impl ParameterDef {
    /// Check a raw value against this definition; see [`Self::validate`].
    pub fn validate_value(&self, value: &str) -> (r: Result<(), String>)
        ensures
            r is Ok <==> spec_value_ok(self, value@),
            r is Err ==> r->Err_0@ == spec_value_err(self, value@),
    {
        self.validate(value)
    }
}

/// Join a list of values with ", ".
fn join_comma(evs: &Vec<String>) -> (r: String)
    ensures
        r@ == spec_join_comma(evs@.map_values(|s: String| s@)),
{
    let ghost vs = evs@.map_values(|s: String| s@);
    let n = evs.len();
    let mut m = String::new();
    proof {
        assert(vs.take(0) =~= Seq::<Seq<char>>::empty());
    }
    let mut i: usize = 0;
    while i < n
        invariant
            vs == evs@.map_values(|s: String| s@),
            n == evs@.len(),
            i <= n,
            m@ == spec_join_comma(vs.take(i as int)),
        decreases n - i,
    {
        if i > 0 {
            m.append(", ");
        }
        m.append(evs[i].as_str());
        proof {
            assert(vs.take(i + 1) =~= vs.take(i as int).push(vs[i as int]));
            lemma_join_comma_push(vs.take(i as int), vs[i as int]);
        }
        i = i + 1;
    }
    proof {
        assert(vs.take(n as int) =~= vs);
    }
    m
}

/// Exec range check over fixed-point units.
fn in_range_exec(u: i128, c: &Option<ParameterConstraints>) -> (r: bool)
    ensures
        r == units_in_range(u as int, c),
{
    match c {
        None => true,
        Some(cs) => {
            let min_ok = match &cs.min_value {
                None => true,
                Some(m) => u >= m.units,
            };
            let max_ok = match &cs.max_value {
                None => true,
                Some(m) => u <= m.units,
            };
            min_ok && max_ok
        },
    }
}

/// Exec enumeration check.
fn enum_ok_exec(v: &str, c: &Option<ParameterConstraints>) -> (r: bool)
    ensures
        r == enum_ok(v@, c),
{
    match c {
        None => true,
        Some(cs) => match &cs.enum_values {
            None => true,
            Some(evs) => {
                let n = evs.len();
                let mut i: usize = 0;
                while i < n
                    invariant
                        n == evs@.len(),
                        i <= n,
                        c is Some && c->0.enum_values is Some && evs@ == c->0.enum_values->0@,
                        forall|j: int|
                            0 <= j < i ==> spec_upper(#[trigger] evs@[j]@) != spec_upper(v@),
                    decreases n - i,
                {
                    if str_eq_ignore_case(evs[i].as_str(), v) {
                        proof {
                            assert(spec_upper(c->0.enum_values->0@[i as int]@) == spec_upper(
                                v@,
                            ));
                        }
                        return true;
                    }
                    i = i + 1;
                }
                false
            },
        },
    }
}

/// First declared parameter of `params` answering to `name`, if any.
pub open spec fn spec_find_in(params: Seq<ParameterDef>, name: Seq<char>) -> Option<int>
    decreases params.len(),
{
    if params.len() == 0 {
        None
    } else if spec_matches_name(&params[0], name) {
        Some(0)
    } else {
        match spec_find_in(params.drop_first(), name) {
            None => None,
            Some(i) => Some(1 + i),
        }
    }
}

pub proof fn lemma_spec_find_in(params: Seq<ParameterDef>, name: Seq<char>)
    ensures
        match spec_find_in(params, name) {
            Some(i) => 0 <= i < params.len() && spec_matches_name(&params[i], name),
            None => forall|i: int| 0 <= i < params.len() ==> !spec_matches_name(&params[i], name),
        },
    decreases params.len(),
{
    if params.len() > 0 && !spec_matches_name(&params[0], name) {
        lemma_spec_find_in(params.drop_first(), name);
        assert forall|i: int| 0 <= i < params.len() implies (spec_find_in(params, name) is None
            ==> !spec_matches_name(&params[i], name)) by {
            if i > 0 {
                assert(params.drop_first()[i - 1] == params[i]);
            }
        }
    }
}

/// The first parameter of a command definition answering to `name`, if any.
pub open spec fn spec_find_parameter(cmd: &CommandDef, name: Seq<char>) -> Option<int> {
    match cmd.parameters {
        None => None,
        Some(ref ps) => spec_find_in(ps@, name),
    }
}

impl CommandDef {
    /// Find the declared parameter answering to `name` (name or alias).
    pub fn find_parameter(&self, name: &str) -> (r: Option<&ParameterDef>)
        ensures
            match spec_find_parameter(self, name@) {
                Some(i) => r is Some && *r->0 == self.parameters->0@[i],
                None => r is None,
            },
    {
        match &self.parameters {
            None => None,
            Some(ps) => {
                let n = ps.len();
                let mut i: usize = 0;
                proof {
                    assert(ps@.skip(0) =~= ps@);
                }
                while i < n
                    invariant
                        n == ps@.len(),
                        i <= n,
                        self.parameters is Some && ps@ == self.parameters->0@,
                        forall|j: int| 0 <= j < i ==> !spec_matches_name(&ps@[j], name@),
                        spec_find_in(ps@, name@) == match spec_find_in(
                            ps@.skip(i as int),
                            name@,
                        ) {
                            None => None::<int>,
                            Some(k) => Some(k + i),
                        },
                    decreases n - i,
                {
                    let ghost rest = ps@.skip(i as int);
                    proof {
                        assert(rest[0] == ps@[i as int]);
                    }
                    if ps[i].matches_name(name) {
                        proof {
                            assert(spec_find_in(ps@.skip(i as int), name@) == Some(0int));
                            assert(spec_find_parameter(self, name@) == Some(i as int));
                        }
                        return Some(&ps[i]);
                    }
                    i = i + 1;
                    proof {
                        assert(rest.drop_first() =~= ps@.skip(i as int));
                    }
                }
                proof {
                    assert(ps@.skip(n as int) =~= Seq::<ParameterDef>::empty());
                }
                None
            },
        }
    }

    /// The declared parameters marked required.
    pub fn required_parameters(&self) -> (r: Vec<&ParameterDef>)
        ensures
            ({
                let ps = match self.parameters {
                    None => Seq::<ParameterDef>::empty(),
                    Some(ref v) => v@,
                };
                r@.map_values(|p: &ParameterDef| *p) == ps.filter(|p: ParameterDef| p.required)
            }),
    {
        let mut r: Vec<&ParameterDef> = Vec::new();
        match &self.parameters {
            None => {
                proof {
                    reveal(Seq::filter);
                    assert(r@.map_values(|p: &ParameterDef| *p) =~= Seq::<
                        ParameterDef,
                    >::empty().filter(|p: ParameterDef| p.required));
                }
                r
            },
            Some(ps) => {
                let n = ps.len();
                let mut i: usize = 0;
                proof {
                    reveal(Seq::filter);
                    assert(ps@.take(0) =~= Seq::<ParameterDef>::empty());
                    assert(r@.map_values(|p: &ParameterDef| *p) =~= ps@.take(0).filter(
                        |p: ParameterDef| p.required,
                    ));
                }
                while i < n
                    invariant
                        n == ps@.len(),
                        i <= n,
                        self.parameters is Some && ps@ == self.parameters->0@,
                        r@.map_values(|p: &ParameterDef| *p) == ps@.take(i as int).filter(
                            |p: ParameterDef| p.required,
                        ),
                    decreases n - i,
                {
                    let ghost prev = r@;
                    proof {
                        reveal(Seq::filter);
                        assert(ps@.take(i + 1).drop_last() =~= ps@.take(i as int));
                        assert(ps@.take(i + 1).last() == ps@[i as int]);
                    }
                    if ps[i].required {
                        r.push(&ps[i]);
                        proof {
                            assert(r@.map_values(|p: &ParameterDef| *p) =~= prev.map_values(
                                |p: &ParameterDef| *p,
                            ).push(ps@[i as int]));
                        }
                    }
                    i = i + 1;
                }
                proof {
                    assert(ps@.take(n as int) =~= ps@);
                }
                r
            },
        }
    }
}


/// First index in `items` whose command name upper-cases to `upper`.
pub open spec fn spec_cs_find(items: Seq<CommandDef>, upper: Seq<char>) -> Option<int>
    decreases items.len(),
{
    if items.len() == 0 {
        None
    } else if spec_upper(items[0].name@) == upper {
        Some(0)
    } else {
        match spec_cs_find(items.drop_first(), upper) {
            None => None,
            Some(i) => Some(1 + i),
        }
    }
}

pub proof fn lemma_spec_cs_find(items: Seq<CommandDef>, upper: Seq<char>)
    ensures
        match spec_cs_find(items, upper) {
            Some(i) => 0 <= i < items.len() && spec_upper(items[i].name@) == upper,
            None => forall|i: int|
                0 <= i < items.len() ==> spec_upper((#[trigger] items[i]).name@) != upper,
        },
    decreases items.len(),
{
    if items.len() > 0 && spec_upper(items[0].name@) != upper {
        lemma_spec_cs_find(items.drop_first(), upper);
        if spec_cs_find(items.drop_first(), upper) is None {
            assert forall|i: int|
                0 <= i < items.len() implies spec_upper(
                (#[trigger] items[i]).name@,
            ) != upper by {
                if i > 0 {
                    assert(items.drop_first()[i - 1] == items[i]);
                }
            }
        }
    }
}

/// When no entry's upper-cased name is `u`, lookup fails.
pub proof fn lemma_cs_find_none(items: Seq<CommandDef>, u: Seq<char>)
    requires
        forall|i: int| 0 <= i < items.len() ==> spec_upper((#[trigger] items[i]).name@) != u,
    ensures
        spec_cs_find(items, u) is None,
{
    lemma_spec_cs_find(items, u);
}

/// When entry `d` is the first whose upper-cased name is `u`, lookup finds
/// exactly it.
pub proof fn lemma_cs_find_at(items: Seq<CommandDef>, u: Seq<char>, d: int)
    requires
        0 <= d < items.len(),
        spec_upper(items[d].name@) == u,
        forall|i: int| 0 <= i < d ==> spec_upper((#[trigger] items[i]).name@) != u,
    ensures
        spec_cs_find(items, u) == Some(d),
    decreases d,
{
    if d > 0 {
        assert(items.drop_first()[d - 1] == items[d]);
        assert forall|i: int| 0 <= i < d - 1 implies spec_upper(
            (#[trigger] items.drop_first()[i]).name@,
        ) != u by {
            assert(items.drop_first()[i] == items[i + 1]);
        }
        lemma_cs_find_at(items.drop_first(), u, d - 1);
    }
}

/// The effect of inserting one command definition: the first entry of the
/// same (upper-cased) name is replaced, or the definition is appended.
pub open spec fn spec_cs_insert(items: Seq<CommandDef>, cmd: CommandDef) -> Seq<CommandDef> {
    match spec_cs_find(items, spec_upper(cmd.name@)) {
        Some(i) => items.update(i, cmd),
        None => items.push(cmd),
    }
}

/// The command sets built from a list of definitions, inserted in order.
pub open spec fn spec_cs_build(cmds: Seq<CommandDef>) -> Seq<CommandDef>
    decreases cmds.len(),
{
    if cmds.len() == 0 {
        Seq::empty()
    } else {
        spec_cs_insert(spec_cs_build(cmds.drop_last()), cmds.last())
    }
}

/// The set of commands a flavor accepts, looked up by upper-cased name.
#[derive(Debug, PartialEq)]
pub struct CommandSet {
    items: Vec<CommandDef>,
}

impl View for CommandSet {
    type V = Seq<CommandDef>;

    closed spec fn view(&self) -> Seq<CommandDef> {
        self.items@
    }
}

impl CommandSet {
    /// An empty command set.
    pub fn new() -> (r: CommandSet)
        ensures
            r@ =~= Seq::<CommandDef>::empty(),
    {
        CommandSet { items: Vec::new() }
    }

    /// Number of commands held.
    pub fn len(&self) -> (r: usize)
        ensures
            r == self@.len(),
    {
        self.items.len()
    }

    /// True when no command is held.
    pub fn is_empty(&self) -> (r: bool)
        ensures
            r == (self@.len() == 0),
    {
        self.items.is_empty()
    }

    /// Insert a definition, replacing an entry of the same name.
    pub fn insert(&mut self, cmd: CommandDef)
        ensures
            final(self)@ == spec_cs_insert(old(self)@, cmd),
    {
        let upper_name = crate::text::to_upper(cmd.name.as_str());
        let n = self.items.len();
        let ghost items0 = self.items@;
        proof {
            assert(items0.skip(0) =~= items0);
        }
        let mut i: usize = 0;
        while i < n
            invariant
                n == self.items@.len(),
                i <= n,
                self.items@ == items0,
                old(self)@ == items0,
                upper_name@ == spec_upper(cmd.name@),
                spec_cs_find(items0, spec_upper(cmd.name@)) == match spec_cs_find(
                    items0.skip(i as int),
                    spec_upper(cmd.name@),
                ) {
                    None => None::<int>,
                    Some(k) => Some(k + i),
                },
            decreases n - i,
        {
            let ghost rest = items0.skip(i as int);
            proof {
                assert(rest[0] == items0[i as int]);
            }
            if crate::text::str_eq_ignore_case(self.items[i].name.as_str(), cmd.name.as_str()) {
                proof {
                    assert(spec_upper(items0[i as int].name@) == spec_upper(cmd.name@));
                    assert(spec_cs_find(rest, spec_upper(cmd.name@)) == Some(0int));
                }
                self.items.set(i, cmd);
                return ;
            }
            proof {
                assert(spec_upper(items0[i as int].name@) != spec_upper(cmd.name@));
                assert(rest.drop_first() =~= items0.skip(i + 1));
            }
            i = i + 1;
        }
        proof {
            assert(items0.skip(n as int) =~= Seq::<CommandDef>::empty());
        }
        self.items.push(cmd);
    }

    /// Look a command up by name, case-insensitively.
    pub fn get(&self, name: &str) -> (r: Option<&CommandDef>)
        ensures
            match spec_cs_find(self@, spec_upper(name@)) {
                Some(i) => r is Some && *r->0 == self@[i],
                None => r is None,
            },
    {
        let n = self.items.len();
        let ghost items0 = self.items@;
        proof {
            assert(items0.skip(0) =~= items0);
        }
        let mut i: usize = 0;
        while i < n
            invariant
                n == self.items@.len(),
                self.items@ == items0,
                self@ == items0,
                i <= n,
                spec_cs_find(items0, spec_upper(name@)) == match spec_cs_find(
                    items0.skip(i as int),
                    spec_upper(name@),
                ) {
                    None => None::<int>,
                    Some(k) => Some(k + i),
                },
            decreases n - i,
        {
            let ghost rest = items0.skip(i as int);
            proof {
                assert(rest[0] == items0[i as int]);
            }
            if crate::text::str_eq_ignore_case(self.items[i].name.as_str(), name) {
                proof {
                    assert(spec_cs_find(rest, spec_upper(name@)) == Some(0int));
                }
                return Some(&self.items[i]);
            }
            proof {
                assert(rest.drop_first() =~= items0.skip(i + 1));
            }
            i = i + 1;
        }
        proof {
            assert(items0.skip(n as int) =~= Seq::<CommandDef>::empty());
        }
        None
    }

    /// The command definitions held, in insertion order.
    pub fn entries(&self) -> (r: &Vec<CommandDef>)
        ensures
            r@ == self@,
    {
        &self.items
    }

    /// True when a command of this name is held.
    pub fn contains_key(&self, name: &str) -> (r: bool)
        ensures
            r == (spec_cs_find(self@, spec_upper(name@)) is Some),
    {
        proof {
            lemma_spec_cs_find(self@, spec_upper(name@));
        }
        match self.get(name) {
            Some(_) => true,
            None => false,
        }
    }
}

/// A runtime flavor: its metadata and its command set.
#[derive(Debug, PartialEq)]
pub struct Flavor {
    pub name: String,
    pub version: Option<String>,
    pub description: Option<String>,
    pub commands: CommandSet,
}

impl Flavor {
    /// Build a runtime flavor from a definition file: later entries of the
    /// same command name replace earlier ones.
    pub fn from(file: FlavorFile) -> (r: Flavor)
        ensures
            r.name == file.flavor.name,
            r.version == file.flavor.version,
            r.description == file.flavor.description,
            r.commands@ == spec_cs_build(file.commands@),
    {
        let FlavorFile { flavor: meta, commands } = file;
        let mut set = CommandSet::new();
        let ghost cmds0 = commands@;
        let n = commands.len();
        let mut rest = commands;
        // consume the definitions front to back
        let mut i: usize = 0;
        proof {
            assert(cmds0.take(0) =~= Seq::<CommandDef>::empty());
            assert(set@ =~= spec_cs_build(cmds0.take(0)));
        }
        while i < n
            invariant
                n == cmds0.len(),
                i <= n,
                rest@ == cmds0.skip(i as int),
                set@ == spec_cs_build(cmds0.take(i as int)),
            decreases n - i,
        {
            let cmd = rest.remove(0);
            proof {
                assert(cmd == cmds0[i as int]);
                assert(cmds0.skip(i as int).remove(0) =~= cmds0.skip(i + 1));
                assert(cmds0.take(i + 1).drop_last() =~= cmds0.take(i as int));
                assert(cmds0.take(i + 1).last() == cmds0[i as int]);
            }
            set.insert(cmd);
            i = i + 1;
        }
        proof {
            assert(cmds0.take(n as int) =~= cmds0);
        }
        Flavor { name: meta.name, version: meta.version, description: meta.description, commands: set }
    }
}


/// The complaint for a provided parameter no definition answers to.
pub open spec fn unknown_for_command_msg(param: Seq<char>, cmd: Seq<char>) -> Seq<char> {
    "Unknown parameter '"@ + param + "' for command '"@ + cmd + "'"@
}

/// The complaint for a required parameter that was not provided.
pub open spec fn missing_for_command_msg(param: Seq<char>, cmd: Seq<char>) -> Seq<char> {
    "Missing required parameter '"@ + param + "' for command '"@ + cmd + "'"@
}

/// True when some provided (name, value) pair answers to the definition.
pub open spec fn some_provided_matches(provided: Seq<(String, String)>, def: &ParameterDef) -> bool {
    exists|i: int| 0 <= i < provided.len() && spec_matches_name(def, (#[trigger] provided[i]).0@)
}

/// The complaints the provided (name, value) pairs raise against a
/// command definition: membership and value checks, in order.
pub open spec fn spec_provided_errors(
    provided: Seq<(String, String)>,
    cmd: &CommandDef,
) -> Seq<Seq<char>>
    decreases provided.len(),
{
    if provided.len() == 0 {
        Seq::empty()
    } else {
        let rest = spec_provided_errors(provided.drop_first(), cmd);
        let head = match spec_find_parameter(cmd, provided[0].0@) {
            Some(k) => {
                if spec_value_ok(&cmd.parameters->0@[k], provided[0].1@) {
                    Seq::<Seq<char>>::empty()
                } else {
                    seq![spec_value_err(&cmd.parameters->0@[k], provided[0].1@)]
                }
            },
            None => seq![unknown_for_command_msg(provided[0].0@, cmd.name@)],
        };
        head + rest
    }
}

/// The complaints for required parameters that no provided pair answers to.
pub open spec fn spec_missing_errors(
    defs: Seq<ParameterDef>,
    cmd_name: Seq<char>,
    provided: Seq<(String, String)>,
) -> Seq<Seq<char>>
    decreases defs.len(),
{
    if defs.len() == 0 {
        Seq::empty()
    } else {
        let rest = spec_missing_errors(defs.drop_first(), cmd_name, provided);
        if defs[0].required && !some_provided_matches(provided, &defs[0]) {
            seq![missing_for_command_msg(defs[0].name@, cmd_name)] + rest
        } else {
            rest
        }
    }
}

/// The views of a sequence of owned messages.
pub open spec fn msgs_view(ms: Seq<String>) -> Seq<Seq<char>> {
    ms.map_values(|m: String| m@)
}

impl CommandDef {
    /// Check a list of provided (name, value) pairs against this command:
    /// each pair's membership and value, then each required parameter's
    /// presence by name or alias. Returns every complaint, in order.
    pub fn validate_parameters(&self, provided_params: &Vec<(String, String)>) -> (r: Vec<String>)
        ensures
            msgs_view(r@) == spec_provided_errors(provided_params@, self) + (match self.parameters {
                Some(ref ps) => spec_missing_errors(ps@, self.name@, provided_params@),
                None => Seq::<Seq<char>>::empty(),
            }),
    {
        let ghost gp = provided_params@;
        let mut errors: Vec<String> = Vec::new();
        let n = provided_params.len();
        proof {
            assert(gp.skip(0) =~= gp);
            assert(msgs_view(errors@) =~= Seq::<Seq<char>>::empty());
        }
        let mut i: usize = 0;
        while i < n
            invariant
                gp == provided_params@,
                n == gp.len(),
                i <= n,
                msgs_view(errors@) + spec_provided_errors(gp.skip(i as int), self)
                    =~= spec_provided_errors(gp, self),
            decreases n - i,
        {
            let ghost rest = gp.skip(i as int);
            proof {
                assert(rest[0] == gp[i as int]);
                assert(rest.drop_first() =~= gp.skip(i + 1));
                crate::flavor::schema::lemma_spec_find_in(
                    if self.parameters is Some {
                        self.parameters->0@
                    } else {
                        Seq::<ParameterDef>::empty()
                    },
                    gp[i as int].0@,
                );
            }
            let pair = &provided_params[i];
            match self.find_parameter(pair.0.as_str()) {
                Some(param_def) => {
                    match param_def.validate(pair.1.as_str()) {
                        Ok(_) => {
                        },
                        Err(msg) => {
                            let ghost prev = errors@;
                            errors.push(msg);
                            proof {
                                assert(msgs_view(errors@) =~= msgs_view(prev).push(
                                    errors@.last()@,
                                ));
                            }
                        },
                    }
                },
                None => {
                    let ghost prev = errors@;
                    errors.push(
                        concat5(
                            "Unknown parameter '",
                            pair.0.as_str(),
                            "' for command '",
                            self.name.as_str(),
                            "'",
                        ),
                    );
                    proof {
                        assert(msgs_view(errors@) =~= msgs_view(prev).push(errors@.last()@));
                    }
                },
            }
            i = i + 1;
        }
        proof {
            assert(gp.skip(n as int) =~= Seq::<(String, String)>::empty());
        }
        let ghost after_provided = msgs_view(errors@);
        match &self.parameters {
            Some(ps) => {
                let ghost gdefs = ps@;
                let m = ps.len();
                proof {
                    assert(gdefs.skip(0) =~= gdefs);
                }
                let mut j: usize = 0;
                while j < m
                    invariant
                        gp == provided_params@,
                        ps@ == gdefs,
                        self.parameters is Some && gdefs == self.parameters->0@,
                        m == gdefs.len(),
                        j <= m,
                        msgs_view(errors@) + spec_missing_errors(
                            gdefs.skip(j as int),
                            self.name@,
                            gp,
                        ) =~= after_provided + spec_missing_errors(gdefs, self.name@, gp),
                    decreases m - j,
                {
                    let ghost rest = gdefs.skip(j as int);
                    proof {
                        assert(rest[0] == gdefs[j as int]);
                        assert(rest.drop_first() =~= gdefs.skip(j + 1));
                    }
                    let def = &ps[j];
                    if def.required && !provided_matches_exec(provided_params, def) {
                        let ghost prev = errors@;
                        errors.push(
                            concat5(
                                "Missing required parameter '",
                                def.name.as_str(),
                                "' for command '",
                                self.name.as_str(),
                                "'",
                            ),
                        );
                        proof {
                            assert(msgs_view(errors@) =~= msgs_view(prev).push(errors@.last()@));
                        }
                    }
                    j = j + 1;
                }
                proof {
                    assert(gdefs.skip(m as int) =~= Seq::<ParameterDef>::empty());
                }
            },
            None => {
            },
        }
        errors
    }
}

/// True when some provided (name, value) pair answers to the definition.
fn provided_matches_exec(provided: &Vec<(String, String)>, def: &ParameterDef) -> (r: bool)
    ensures
        r == some_provided_matches(provided@, def),
{
    let n = provided.len();
    let mut i: usize = 0;
    while i < n
        invariant
            n == provided@.len(),
            i <= n,
            forall|k: int|
                0 <= k < i ==> !spec_matches_name(def, (#[trigger] provided@[k]).0@),
        decreases n - i,
    {
        if def.matches_name(provided[i].0.as_str()) {
            proof {
                assert(spec_matches_name(def, provided@[i as int].0@));
            }
            return true;
        }
        i = i + 1;
    }
    false
}

} // verus!
