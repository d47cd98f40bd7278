//! Validation engine: checks parsed lines against the active flavor.
//!
//! Per line: comment and empty lines are always valid. A command line is
//! looked up in the active flavor; unknown commands and parameters are
//! advisory warnings, while missing required parameters, unmet
//! cross-parameter constraints and ill-typed or out-of-range values are
//! errors.

use vstd::prelude::*;

use crate::flavor::registry::FlavorRegistry;
use crate::flavor::schema::{
    spec_find_parameter, spec_matches_name, spec_value_err, spec_value_ok, CommandDef,
    ConstraintType, ParameterConstraint, ParameterDef,
};
use crate::parser::{GCommand, GParameter, GParsedLine, ParsedLine};
use crate::text::{char_string, concat3, concat5, spec_upper};

verus! {

/// Severity of a diagnostic.
#[derive(Debug, Clone, Copy, PartialEq, Eq, Structural)]
pub enum Severity {
    Error,
    Warning,
    Info,
}

/// A validation finding tied to a 1-based source line.
#[derive(Debug, Clone, PartialEq)]
pub struct Diagnostic {
    pub line: usize,
    pub message: String,
    pub severity: Severity,
}

/// Mathematical image of a [`Diagnostic`].
pub ghost struct GDiagnostic {
    pub line: int,
    pub message: Seq<char>,
    pub severity: Severity,
}

impl View for Diagnostic {
    type V = GDiagnostic;

    open spec fn view(&self) -> GDiagnostic {
        GDiagnostic { line: self.line as int, message: self.message@, severity: self.severity }
    }
}

/// The views of a sequence of diagnostics.
pub open spec fn diags_view(ds: Seq<Diagnostic>) -> Seq<GDiagnostic> {
    ds.map_values(|d: Diagnostic| d@)
}

/// The collected findings of a validation run.
#[derive(Debug, PartialEq)]
pub struct ValidationResult {
    pub diagnostics: Vec<Diagnostic>,
}

/// True when no error-severity diagnostic is present.
pub open spec fn spec_is_valid(ds: Seq<GDiagnostic>) -> bool {
    forall|i: int| 0 <= i < ds.len() ==> (#[trigger] ds[i]).severity != Severity::Error
}

impl ValidationResult {
    /// An empty result.
    pub fn new() -> (r: ValidationResult)
        ensures
            r.diagnostics@ =~= Seq::<Diagnostic>::empty(),
    {
        ValidationResult { diagnostics: Vec::new() }
    }

    /// Record an error.
    pub fn add_error(&mut self, line: usize, message: String)
        ensures
            final(self).diagnostics@ == old(self).diagnostics@.push(
                Diagnostic { line, message, severity: Severity::Error },
            ),
    {
        self.diagnostics.push(Diagnostic { line, message, severity: Severity::Error });
    }

    /// Record a warning.
    pub fn add_warning(&mut self, line: usize, message: String)
        ensures
            final(self).diagnostics@ == old(self).diagnostics@.push(
                Diagnostic { line, message, severity: Severity::Warning },
            ),
    {
        self.diagnostics.push(Diagnostic { line, message, severity: Severity::Warning });
    }

    /// True exactly when no error-severity diagnostic was recorded.
    pub fn is_valid(&self) -> (r: bool)
        ensures
            r == spec_is_valid(diags_view(self.diagnostics@)),
    {
        let ghost ds = diags_view(self.diagnostics@);
        let n = self.diagnostics.len();
        let mut i: usize = 0;
        while i < n
            invariant
                ds == diags_view(self.diagnostics@),
                n == self.diagnostics@.len(),
                i <= n,
                forall|j: int| 0 <= j < i ==> (#[trigger] ds[j]).severity != Severity::Error,
            decreases n - i,
        {
            if matches!(self.diagnostics[i].severity, Severity::Error) {
                proof {
                    assert(ds[i as int].severity == Severity::Error);
                }
                return false;
            }
            i = i + 1;
        }
        true
    }
}

impl Default for ValidationResult {
    /// An empty result.
    fn default() -> (r: ValidationResult)
        ensures
            r.diagnostics@ =~= Seq::<Diagnostic>::empty(),
    {
        ValidationResult::new()
    }
}

/// The message for a command the active flavor does not know.
pub open spec fn unknown_command_msg(name: Seq<char>) -> Seq<char> {
    "Unknown command '"@ + name + "'"@
}

/// The message for a supplied parameter no definition answers to.
pub open spec fn unknown_parameter_msg(letter: char, cmd: Seq<char>) -> Seq<char> {
    "Unknown parameter '"@ + seq![letter] + "' for command '"@ + cmd + "'"@
}

/// The message for a required parameter that was not supplied.
pub open spec fn missing_parameter_msg(param: Seq<char>, cmd: Seq<char>) -> Seq<char> {
    "Missing required parameter '"@ + param + "' for command '"@ + cmd + "'"@
}

/// The message an unmet cross-parameter constraint reports: its configured
/// message, or a generated default naming the command.
pub open spec fn constraint_msg(c: &ParameterConstraint, cmd: Seq<char>) -> Seq<char> {
    match c.message {
        Some(ref m) => m@,
        None => "Command '"@ + cmd + "' requires at least one of its constrained parameters"@,
    }
}

/// True when some supplied parameter answers to the definition `def`.
pub open spec fn some_param_matches(params: Seq<GParameter>, def: &ParameterDef) -> bool {
    exists|i: int| 0 <= i < params.len() && spec_matches_name(def, seq![params[i].letter])
}

/// True when some supplied parameter's letter names one of the constraint's
/// wanted parameters, case-insensitively.
pub open spec fn spec_any_of(params: Seq<GParameter>, wanted: Seq<String>) -> bool {
    exists|i: int, j: int|
        #![trigger params[i], wanted[j]]
        0 <= i < params.len() && 0 <= j < wanted.len() && spec_upper(seq![params[i].letter])
            == spec_upper(wanted[j]@)
}

/// The errors the cross-parameter constraints of `cs` raise on a command
/// whose supplied parameters are `params`.
pub open spec fn spec_constraint_errors(
    cs: Seq<ParameterConstraint>,
    cmd: Seq<char>,
    params: Seq<GParameter>,
    line: int,
) -> Seq<GDiagnostic>
    decreases cs.len(),
{
    if cs.len() == 0 {
        Seq::empty()
    } else {
        let rest = spec_constraint_errors(cs.drop_first(), cmd, params, line);
        let met = match cs[0].constraint_type {
            ConstraintType::RequireAnyOf => spec_any_of(params, cs[0].parameters@),
        };
        if met {
            rest
        } else {
            seq![
                GDiagnostic {
                    line,
                    message: constraint_msg(&cs[0], cmd),
                    severity: Severity::Error,
                },
            ] + rest
        }
    }
}

/// The errors the required-parameter rules of `defs` raise.
pub open spec fn spec_required_errors(
    defs: Seq<ParameterDef>,
    cmd: Seq<char>,
    params: Seq<GParameter>,
    line: int,
) -> Seq<GDiagnostic>
    decreases defs.len(),
{
    if defs.len() == 0 {
        Seq::empty()
    } else {
        let rest = spec_required_errors(defs.drop_first(), cmd, params, line);
        if defs[0].required && !some_param_matches(params, &defs[0]) {
            seq![
                GDiagnostic {
                    line,
                    message: missing_parameter_msg(defs[0].name@, cmd),
                    severity: Severity::Error,
                },
            ] + rest
        } else {
            rest
        }
    }
}

/// The findings for each supplied parameter against a command definition:
/// an advisory warning when no definition answers to its letter, an error
/// when its value fails the matched definition's checks.
pub open spec fn spec_supplied_errors(
    params: Seq<GParameter>,
    def: &CommandDef,
    cmd: Seq<char>,
    line: int,
) -> Seq<GDiagnostic>
    decreases params.len(),
{
    if params.len() == 0 {
        Seq::empty()
    } else {
        let rest = spec_supplied_errors(params.drop_first(), def, cmd, line);
        let head = match spec_find_parameter(def, seq![params[0].letter]) {
            None => seq![
                GDiagnostic {
                    line,
                    message: unknown_parameter_msg(params[0].letter, cmd),
                    severity: Severity::Warning,
                },
            ],
            Some(k) => {
                if spec_value_ok(&def.parameters->0@[k], params[0].value) {
                    Seq::<GDiagnostic>::empty()
                } else {
                    seq![
                        GDiagnostic {
                            line,
                            message: spec_value_err(&def.parameters->0@[k], params[0].value),
                            severity: Severity::Error,
                        },
                    ]
                }
            },
        };
        head + rest
    }
}

/// The advisory warnings when a command is unknown: one per supplied
/// parameter, since no rule set exists for them.
pub open spec fn spec_unknown_param_warnings(
    params: Seq<GParameter>,
    cmd: Seq<char>,
    line: int,
) -> Seq<GDiagnostic> {
    params.map_values(
        |p: GParameter| GDiagnostic {
            line,
            message: unknown_parameter_msg(p.letter, cmd),
            severity: Severity::Warning,
        },
    )
}

/// All findings for one command line against the registry's active flavor.
pub open spec fn spec_validate_command(
    line: int,
    c: GCommand,
    reg: &FlavorRegistry,
) -> Seq<GDiagnostic> {
    match reg.spec_get_command(c.name) {
        None => seq![
            GDiagnostic {
                line,
                message: unknown_command_msg(c.name),
                severity: Severity::Warning,
            },
        ] + spec_unknown_param_warnings(c.parameters, c.name, line),
        Some(def) => {
            let con = match def.constraints {
                Some(ref cs) => spec_constraint_errors(cs@, c.name, c.parameters, line),
                None => Seq::<GDiagnostic>::empty(),
            };
            let req_and_sup = match def.parameters {
                Some(ref ps) => spec_required_errors(ps@, c.name, c.parameters, line)
                    + spec_supplied_errors(c.parameters, &def, c.name, line),
                None => Seq::<GDiagnostic>::empty(),
            };
            con + req_and_sup
        },
    }
}

/// All findings for one parsed line: comment and empty lines are valid.
pub open spec fn spec_validate_line(
    line: int,
    parsed: GParsedLine,
    reg: &FlavorRegistry,
) -> Seq<GDiagnostic> {
    match parsed {
        GParsedLine::Command(c) => spec_validate_command(line, c, reg),
        GParsedLine::Comment(_) => Seq::empty(),
        GParsedLine::Empty => Seq::empty(),
    }
}

/// All findings for a document: every physical line parsed and validated,
/// with 1-based line numbers.
pub open spec fn spec_validate_lines(
    lines: Seq<Seq<char>>,
    next_line: int,
    reg: &FlavorRegistry,
) -> Seq<GDiagnostic>
    decreases lines.len(),
{
    if lines.len() == 0 {
        Seq::empty()
    } else {
        spec_validate_line(next_line, crate::parser::spec_parse_line(lines[0]), reg)
            + spec_validate_lines(lines.drop_first(), next_line + 1, reg)
    }
}

/// All findings for a document's text.
pub open spec fn spec_validate_document(content: Seq<char>, reg: &FlavorRegistry) -> Seq<
    GDiagnostic,
> {
    spec_validate_lines(crate::text::spec_lines(content), 1, reg)
}

/// True when some supplied parameter's letter names one of `wanted`.
fn any_of_exec(params: &Vec<crate::parser::Parameter>, wanted: &Vec<String>) -> (r: bool)
    ensures
        r == spec_any_of(params@.map_values(|p: crate::parser::Parameter| p@), wanted@),
{
    let ghost gps = params@.map_values(|p: crate::parser::Parameter| p@);
    let n = params.len();
    let m = wanted.len();
    let mut i: usize = 0;
    while i < n
        invariant
            gps == params@.map_values(|p: crate::parser::Parameter| p@),
            n == params@.len(),
            m == wanted@.len(),
            i <= n,
            forall|a: int, b: int|
                #![trigger gps[a], wanted@[b]]
                0 <= a < i && 0 <= b < m ==> spec_upper(seq![gps[a].letter]) != spec_upper(
                    wanted@[b]@,
                ),
        decreases n - i,
    {
        let ls = char_string(params[i].letter);
        let mut j: usize = 0;
        while j < m
            invariant
                gps == params@.map_values(|p: crate::parser::Parameter| p@),
                n == params@.len(),
                m == wanted@.len(),
                i < n,
                j <= m,
                ls@ == seq![gps[i as int].letter],
                forall|b: int|
                    0 <= b < j ==> spec_upper(seq![gps[i as int].letter]) != spec_upper(
                        #[trigger] wanted@[b]@,
                    ),
            decreases m - j,
        {
            if crate::text::str_eq_ignore_case(ls.as_str(), wanted[j].as_str()) {
                proof {
                    assert(spec_upper(seq![gps[i as int].letter]) == spec_upper(wanted@[j
                        as int]@));
                }
                return true;
            }
            j = j + 1;
        }
        i = i + 1;
    }
    false
}

/// True when some supplied parameter answers to the definition `def`.
fn param_matches_any(params: &Vec<crate::parser::Parameter>, def: &ParameterDef) -> (r: bool)
    ensures
        r == some_param_matches(params@.map_values(|p: crate::parser::Parameter| p@), def),
{
    let ghost gps = params@.map_values(|p: crate::parser::Parameter| p@);
    let n = params.len();
    let mut i: usize = 0;
    while i < n
        invariant
            gps == params@.map_values(|p: crate::parser::Parameter| p@),
            n == params@.len(),
            i <= n,
            forall|a: int| 0 <= a < i ==> !spec_matches_name(def, seq![(#[trigger] gps[a]).letter]),
        decreases n - i,
    {
        let ls = char_string(params[i].letter);
        if def.matches_name(ls.as_str()) {
            proof {
                assert(spec_matches_name(def, seq![gps[i as int].letter]));
            }
            return true;
        }
        i = i + 1;
    }
    false
}

/// Validate one command line against the registry's active flavor.
pub fn validate_command(
    line_num: usize,
    cmd: &crate::parser::Command,
    flavor: &FlavorRegistry,
    result: &mut ValidationResult,
)
    ensures
        diags_view(final(result).diagnostics@) == diags_view(old(result).diagnostics@)
            + spec_validate_command(line_num as int, cmd@, flavor),
{
    let ghost base = diags_view(old(result).diagnostics@);
    let ghost gc = cmd@;
    let ghost gps = gc.parameters;
    proof {
        assert(gps == cmd.parameters@.map_values(|p: crate::parser::Parameter| p@));
    }
    match flavor.get_command(cmd.name.as_str()) {
        None => {
            result.add_warning(
                line_num,
                concat3("Unknown command '", cmd.name.as_str(), "'"),
            );
            let ghost with_head = base + seq![
                GDiagnostic {
                    line: line_num as int,
                    message: unknown_command_msg(gc.name),
                    severity: Severity::Warning,
                },
            ];
            proof {
                assert(diags_view(result.diagnostics@) =~= with_head);
            }
            let n = cmd.parameters.len();
            let ghost warns = spec_unknown_param_warnings(gps, gc.name, line_num as int);
            let mut i: usize = 0;
            while i < n
                invariant
                    gps == cmd.parameters@.map_values(|p: crate::parser::Parameter| p@),
                    warns == spec_unknown_param_warnings(gps, gc.name, line_num as int),
                    gc == cmd@,
                    n == cmd.parameters@.len(),
                    i <= n,
                    diags_view(result.diagnostics@) =~= with_head + warns.take(i as int),
                decreases n - i,
            {
                let ghost prev = diags_view(result.diagnostics@);
                let ls = char_string(cmd.parameters[i].letter);
                result.add_warning(
                    line_num,
                    concat5(
                        "Unknown parameter '",
                        ls.as_str(),
                        "' for command '",
                        cmd.name.as_str(),
                        "'",
                    ),
                );
                i = i + 1;
                proof {
                    assert(warns[i - 1] == (GDiagnostic {
                        line: line_num as int,
                        message: unknown_parameter_msg(gps[i - 1].letter, gc.name),
                        severity: Severity::Warning,
                    }));
                    assert(diags_view(result.diagnostics@) =~= prev.push(
                        result.diagnostics@.last()@,
                    ));
                    assert(result.diagnostics@.last()@ == warns[i - 1]);
                    assert(warns.take(i as int) =~= warns.take(i - 1).push(warns[i - 1]));
                    assert(diags_view(result.diagnostics@) =~= with_head + warns.take(i as int));
                }
            }
            proof {
                assert(warns.take(n as int) =~= warns);
                assert(diags_view(result.diagnostics@) =~= base + spec_validate_command(
                    line_num as int,
                    gc,
                    flavor,
                ));
            }
        },
        Some(def) => {
            let ghost gdef = *def;
            // cross-parameter constraints, independent of parameter defs
            match &def.constraints {
                Some(cs) => {
                    let ghost gcs = cs@;
                    let n = cs.len();
                    proof {
                        assert(gcs.skip(0) =~= gcs);
                        assert(diags_view(result.diagnostics@) + spec_constraint_errors(
                            gcs.skip(0),
                            gc.name,
                            gps,
                            line_num as int,
                        ) =~= base + spec_constraint_errors(gcs, gc.name, gps, line_num as int));
                    }
                    let mut i: usize = 0;
                    while i < n
                        invariant
                            cs@ == gcs,
                            gcs == def.constraints->0@,
                            gdef == *def,
                            gps == cmd.parameters@.map_values(
                                |p: crate::parser::Parameter| p@,
                            ),
                            gc == cmd@,
                            n == gcs.len(),
                            i <= n,
                            diags_view(result.diagnostics@) + spec_constraint_errors(
                                gcs.skip(i as int),
                                gc.name,
                                gps,
                                line_num as int,
                            ) =~= base + spec_constraint_errors(
                                gcs,
                                gc.name,
                                gps,
                                line_num as int,
                            ),
                        decreases n - i,
                    {
                        let ghost rest = gcs.skip(i as int);
                        proof {
                            assert(rest[0] == gcs[i as int]);
                            assert(rest.drop_first() =~= gcs.skip(i + 1));
                        }
                        let c = &cs[i];
                        let met = match c.constraint_type {
                            ConstraintType::RequireAnyOf => any_of_exec(
                                &cmd.parameters,
                                &c.parameters,
                            ),
                        };
                        if !met {
                            let msg = match &c.message {
                                Some(m) => m.clone(),
                                None => concat3(
                                    "Command '",
                                    cmd.name.as_str(),
                                    "' requires at least one of its constrained parameters",
                                ),
                            };
                            proof {
                                assert(msg@ == constraint_msg(&gcs[i as int], gc.name));
                            }
                            result.add_error(line_num, msg);
                            proof {
                                assert(diags_view(result.diagnostics@) =~= diags_view(
                                    result.diagnostics@.drop_last(),
                                ).push(result.diagnostics@.last()@));
                            }
                        }
                        i = i + 1;
                    }
                    proof {
                        assert(gcs.skip(n as int) =~= Seq::<ParameterConstraint>::empty());
                        assert(spec_constraint_errors(
                            gcs.skip(n as int),
                            gc.name,
                            gps,
                            line_num as int,
                        ) =~= Seq::<GDiagnostic>::empty());
                    }
                },
                None => {
                },
            }
            let ghost after_con = diags_view(result.diagnostics@);
            proof {
                let con = match gdef.constraints {
                    Some(ref cs2) => spec_constraint_errors(
                        cs2@,
                        gc.name,
                        gps,
                        line_num as int,
                    ),
                    None => Seq::<GDiagnostic>::empty(),
                };
                assert(after_con =~= base + con);
            }
            // required parameters and supplied-parameter checks
            match &def.parameters {
                Some(ps) => {
                    let ghost gdefs = ps@;
                    let n = ps.len();
                    proof {
                        assert(gdefs.skip(0) =~= gdefs);
                    }
                    let mut i: usize = 0;
                    while i < n
                        invariant
                            ps@ == gdefs,
                            gdefs == def.parameters->0@,
                            gdef == *def,
                            gps == cmd.parameters@.map_values(
                                |p: crate::parser::Parameter| p@,
                            ),
                            gc == cmd@,
                            n == gdefs.len(),
                            i <= n,
                            diags_view(result.diagnostics@) + spec_required_errors(
                                gdefs.skip(i as int),
                                gc.name,
                                gps,
                                line_num as int,
                            ) =~= after_con + spec_required_errors(
                                gdefs,
                                gc.name,
                                gps,
                                line_num as int,
                            ),
                        decreases n - i,
                    {
                        let ghost rest = gdefs.skip(i as int);
                        proof {
                            assert(rest[0] == gdefs[i as int]);
                            assert(rest.drop_first() =~= gdefs.skip(i + 1));
                        }
                        let pd = &ps[i];
                        if pd.required && !param_matches_any(&cmd.parameters, pd) {
                            result.add_error(
                                line_num,
                                concat5(
                                    "Missing required parameter '",
                                    pd.name.as_str(),
                                    "' for command '",
                                    cmd.name.as_str(),
                                    "'",
                                ),
                            );
                            proof {
                                assert(diags_view(result.diagnostics@) =~= diags_view(
                                    result.diagnostics@.drop_last(),
                                ).push(result.diagnostics@.last()@));
                            }
                        }
                        i = i + 1;
                    }
                    proof {
                        assert(gdefs.skip(n as int) =~= Seq::<ParameterDef>::empty());
                    }
                    let ghost after_req = diags_view(result.diagnostics@);
                    // each supplied parameter: membership and value checks
                    let m = cmd.parameters.len();
                    proof {
                        assert(gps.skip(0) =~= gps);
                    }
                    let mut j: usize = 0;
                    while j < m
                        invariant
                            gdefs == def.parameters->0@,
                            gdef == *def,
                            gps == cmd.parameters@.map_values(
                                |p: crate::parser::Parameter| p@,
                            ),
                            gc == cmd@,
                            m == cmd.parameters@.len(),
                            j <= m,
                            diags_view(result.diagnostics@) + spec_supplied_errors(
                                gps.skip(j as int),
                                &gdef,
                                gc.name,
                                line_num as int,
                            ) =~= after_req + spec_supplied_errors(
                                gps,
                                &gdef,
                                gc.name,
                                line_num as int,
                            ),
                        decreases m - j,
                    {
                        let ghost rest = gps.skip(j as int);
                        proof {
                            assert(rest[0] == gps[j as int]);
                            assert(rest.drop_first() =~= gps.skip(j + 1));
                        }
                        let p = &cmd.parameters[j];
                        let ls = char_string(p.letter);
                        proof {
                            crate::flavor::schema::lemma_spec_find_in(
                                if gdef.parameters is Some {
                                    gdef.parameters->0@
                                } else {
                                    Seq::<ParameterDef>::empty()
                                },
                                ls@,
                            );
                        }
                        match def.find_parameter(ls.as_str()) {
                            None => {
                                result.add_warning(
                                    line_num,
                                    concat5(
                                        "Unknown parameter '",
                                        ls.as_str(),
                                        "' for command '",
                                        cmd.name.as_str(),
                                        "'",
                                    ),
                                );
                                proof {
                                    assert(diags_view(result.diagnostics@) =~= diags_view(
                                        result.diagnostics@.drop_last(),
                                    ).push(result.diagnostics@.last()@));
                                }
                            },
                            Some(pd) => {
                                match pd.validate(p.value.as_str()) {
                                    Ok(_) => {
                                    },
                                    Err(msg) => {
                                        result.add_error(line_num, msg);
                                        proof {
                                            assert(diags_view(result.diagnostics@)
                                                =~= diags_view(
                                                result.diagnostics@.drop_last(),
                                            ).push(result.diagnostics@.last()@));
                                        }
                                    },
                                }
                            },
                        }
                        j = j + 1;
                    }
                    proof {
                        assert(gps.skip(m as int) =~= Seq::<GParameter>::empty());
                        assert(diags_view(result.diagnostics@) =~= base + spec_validate_command(
                            line_num as int,
                            gc,
                            flavor,
                        ));
                    }
                },
                None => {
                    proof {
                        assert(diags_view(result.diagnostics@) =~= base + spec_validate_command(
                            line_num as int,
                            gc,
                            flavor,
                        ));
                    }
                },
            }
        },
    }
}

/// Validate a single parsed line of G-code.
pub fn validate_line(line_num: usize, parsed: &ParsedLine, flavor: &FlavorRegistry) -> (r:
    ValidationResult)
    ensures
        diags_view(r.diagnostics@) == spec_validate_line(line_num as int, parsed@, flavor),
{
    let mut result = ValidationResult::new();
    match parsed {
        ParsedLine::Command(cmd) => {
            validate_command(line_num, cmd, flavor, &mut result);
            proof {
                assert(diags_view(Seq::<Diagnostic>::empty()) =~= Seq::<GDiagnostic>::empty());
                assert(diags_view(result.diagnostics@) =~= spec_validate_line(
                    line_num as int,
                    parsed@,
                    flavor,
                ));
            }
        },
        ParsedLine::Comment(_) => {
            proof {
                assert(diags_view(result.diagnostics@) =~= Seq::<GDiagnostic>::empty());
            }
        },
        ParsedLine::Empty => {
            proof {
                assert(diags_view(result.diagnostics@) =~= Seq::<GDiagnostic>::empty());
            }
        },
    }
    result
}

/// Validate an entire document line by line, with 1-based line numbers.
pub fn validate_document(content: &str, flavor: &FlavorRegistry) -> (r: ValidationResult)
    requires
        crate::text::width_sum(content@) < usize::MAX,
    ensures
        diags_view(r.diagnostics@) == spec_validate_document(content@, flavor),
{
    let lines = crate::text::split_lines(content);
    let ghost ls = crate::text::spec_lines(content@);
    let n = lines.len();
    let mut result = ValidationResult::new();
    proof {
        assert(ls.skip(0) =~= ls);
        assert(diags_view(result.diagnostics@) =~= Seq::<GDiagnostic>::empty());
    }
    let mut i: usize = 0;
    while i < n
        invariant
            crate::text::lines_views(lines@) == ls,
            ls == crate::text::spec_lines(content@),
            crate::text::width_sum(content@) < usize::MAX,
            n == lines@.len(),
            i <= n,
            diags_view(result.diagnostics@) + spec_validate_lines(
                ls.skip(i as int),
                i + 1,
                flavor,
            ) =~= spec_validate_lines(ls, 1, flavor),
        decreases n - i,
    {
        let ghost rest = ls.skip(i as int);
        proof {
            assert(rest[0] == ls[i as int]);
            assert(rest.drop_first() =~= ls.skip(i + 1));
            crate::gcode::lemma_lines_cost_elem(ls, i as int);
            crate::gcode::lemma_lines_cost_bound(content@, 0);
            assert(content@.subrange(0, content@.len() as int) =~= content@);
        }
        let line = &lines[i];
        let parsed = crate::parser::parse_line(line.as_str());
        let line_result = validate_line(i + 1, &parsed, flavor);
        let ghost prev = diags_view(result.diagnostics@);
        let ghost add = diags_view(line_result.diagnostics@);
        let mut extra = line_result.diagnostics;
        result.diagnostics.append(&mut extra);
        i = i + 1;
        proof {
            assert(diags_view(result.diagnostics@) =~= prev + add);
        }
    }
    proof {
        assert(ls.skip(n as int) =~= Seq::<Seq<char>>::empty());
        assert(diags_view(result.diagnostics@) + Seq::<GDiagnostic>::empty() =~= diags_view(
            result.diagnostics@,
        ));
    }
    result
}


/// Determinism of validation: any two results of validating the same text
/// against the same registry carry the same diagnostics.
pub proof fn lemma_validate_document_deterministic(
    content: Seq<char>,
    reg: &FlavorRegistry,
    r1: ValidationResult,
    r2: ValidationResult,
)
    requires
        diags_view(r1.diagnostics@) == spec_validate_document(content, reg),
        diags_view(r2.diagnostics@) == spec_validate_document(content, reg),
    ensures
        diags_view(r1.diagnostics@) == diags_view(r2.diagnostics@),
{
}

/// The missing-required-parameter error for `defs[k]` occurs among the
/// required-parameter errors.
proof fn lemma_required_errors_contain(
    defs: Seq<ParameterDef>,
    cmd: Seq<char>,
    params: Seq<GParameter>,
    line: int,
    k: int,
)
    requires
        0 <= k < defs.len(),
        defs[k].required,
        !some_param_matches(params, &defs[k]),
    ensures
        ({
            let es = spec_required_errors(defs, cmd, params, line);
            exists|d: int|
                0 <= d < es.len() && #[trigger] es[d] == (GDiagnostic {
                    line,
                    message: missing_parameter_msg(defs[k].name@, cmd),
                    severity: Severity::Error,
                })
        }),
    decreases defs.len(),
{
    let es = spec_required_errors(defs, cmd, params, line);
    let rest = spec_required_errors(defs.drop_first(), cmd, params, line);
    if k == 0 {
        assert(es[0] == (GDiagnostic {
            line,
            message: missing_parameter_msg(defs[0].name@, cmd),
            severity: Severity::Error,
        }));
    } else {
        assert(defs.drop_first()[k - 1] == defs[k]);
        lemma_required_errors_contain(defs.drop_first(), cmd, params, line, k - 1);
        let d0 = choose|d: int|
            0 <= d < rest.len() && #[trigger] rest[d] == (GDiagnostic {
                line,
                message: missing_parameter_msg(defs[k].name@, cmd),
                severity: Severity::Error,
            });
        if defs[0].required && !some_param_matches(params, &defs[0]) {
            assert(es[d0 + 1] == rest[d0]);
        } else {
            assert(es[d0] == rest[d0]);
        }
    }
}

/// Required-parameter law: when the active flavor's definition of a
/// command requires a parameter, and no supplied parameter answers to its
/// name or any of its aliases, validating that command line yields at
/// least one error whose message names the missing parameter.
pub proof fn lemma_required_parameter_error(
    line: int,
    c: GCommand,
    reg: &FlavorRegistry,
    k: int,
)
    requires
        reg.spec_get_command(c.name) is Some,
        reg.spec_get_command(c.name)->0.parameters is Some,
        0 <= k < reg.spec_get_command(c.name)->0.parameters->0@.len(),
        reg.spec_get_command(c.name)->0.parameters->0@[k].required,
        !some_param_matches(c.parameters, &reg.spec_get_command(c.name)->0.parameters->0@[k]),
    ensures
        ({
            let ds = spec_validate_command(line, c, reg);
            let p = reg.spec_get_command(c.name)->0.parameters->0@[k];
            exists|d: int|
                0 <= d < ds.len() && #[trigger] ds[d] == (GDiagnostic {
                    line,
                    message: missing_parameter_msg(p.name@, c.name),
                    severity: Severity::Error,
                })
        }),
{
    let def = reg.spec_get_command(c.name)->0;
    let defs = def.parameters->0@;
    let p = defs[k];
    lemma_required_errors_contain(defs, c.name, c.parameters, line, k);
    let req = spec_required_errors(defs, c.name, c.parameters, line);
    let d0 = choose|d: int|
        0 <= d < req.len() && #[trigger] req[d] == (GDiagnostic {
            line,
            message: missing_parameter_msg(p.name@, c.name),
            severity: Severity::Error,
        });
    let con = match def.constraints {
        Some(ref cs) => spec_constraint_errors(cs@, c.name, c.parameters, line),
        None => Seq::<GDiagnostic>::empty(),
    };
    let sup = spec_supplied_errors(c.parameters, &def, c.name, line);
    let ds = spec_validate_command(line, c, reg);
    assert(ds == con + (req + sup));
    assert(ds[con.len() + d0] == req[d0]);
}

/// Unknown-command non-fatality: a command the active flavor does not know
/// yields only warnings, so a line holding it alone leaves the document
/// valid.
pub proof fn lemma_unknown_command_non_fatal(line: int, c: GCommand, reg: &FlavorRegistry)
    requires
        reg.spec_get_command(c.name) is None,
    ensures
        spec_is_valid(spec_validate_command(line, c, reg)),
{
    let ds = spec_validate_command(line, c, reg);
    let warns = spec_unknown_param_warnings(c.parameters, c.name, line);
    assert forall|i: int| 0 <= i < ds.len() implies (#[trigger] ds[i]).severity
        != Severity::Error by {
        if i > 0 {
            assert(ds[i] == warns[i - 1]);
        }
    }
}

} // verus!
