//! Tests for the validation engine: per-line diagnostics against the
//! active flavor, and the scenarios the engine is meant to cover.

use gcode_language_server::flavor::schema::{
    CommandSet, ConstraintType, FlavorFile, FlavorMeta, ParameterConstraint,
};
use gcode_language_server::flavor::{
    CommandDef, Flavor, FlavorRegistry, ParameterConstraints, ParameterDef, ParameterType,
};
use gcode_language_server::parser::{Command, Parameter, ParsedLine};
use gcode_language_server::validation::engine::validate_command;
use gcode_language_server::validation::{
    validate_document, validate_line, Severity, ValidationResult,
};
use gcode_language_server::value::Decimal;

fn float_param(name: &str, required: bool) -> ParameterDef {
    ParameterDef {
        name: name.to_string(),
        param_type: ParameterType::Float,
        required,
        description: format!("Parameter {}", name),
        constraints: None,
        aliases: None,
    }
}

fn registry_with(commands: Vec<CommandDef>) -> FlavorRegistry {
    let mut registry = FlavorRegistry::new();
    let flavor = Flavor::from(FlavorFile {
        flavor: FlavorMeta {
            name: "test".to_string(),
            version: None,
            description: None,
        },
        commands,
    });
    registry.add_flavor(flavor);
    assert!(registry.set_active_flavor("test"));
    registry
}

#[test]
fn test_validation_result() {
    let mut result = ValidationResult::new();
    assert!(result.is_valid());

    result.add_warning(1, "Test warning".to_string());
    assert!(result.is_valid()); // Warnings don't make it invalid

    result.add_error(2, "Test error".to_string());
    assert!(!result.is_valid()); // Errors make it invalid
}

#[test]
fn test_validate_empty_line() {
    let registry = FlavorRegistry::new();
    let result = validate_line(1, &ParsedLine::Empty, &registry);
    assert!(result.is_valid());
}

#[test]
fn test_constraint_validation() {
    // Create a flavor with a constraint-enabled G0 command
    let mut registry = FlavorRegistry::new();
    let mut commands = CommandSet::new();

    let g0_cmd = CommandDef {
        name: "G0".to_string(),
        description_short: Some("Rapid positioning".to_string()),
        description_long: None,
        parameters: None,
        constraints: Some(vec![ParameterConstraint {
            constraint_type: ConstraintType::RequireAnyOf,
            parameters: vec!["X".to_string(), "Y".to_string(), "Z".to_string()],
            message: Some(
                "Movement command requires at least one coordinate parameter (X, Y, or Z)"
                    .to_string(),
            ),
        }]),
    };

    commands.insert(g0_cmd);

    let flavor = Flavor {
        name: "test".to_string(),
        version: None,
        description: None,
        commands,
    };

    registry.add_flavor(flavor);
    registry.set_active_flavor("test");

    // Test 1: Valid G0 command with X parameter
    let valid_cmd = Command {
        name: "G0".to_string(),
        parameters: vec![Parameter {
            letter: 'X',
            value: "10.0".to_string(),
        }],
        comment: None,
    };

    let mut result = ValidationResult::new();
    validate_command(1, &valid_cmd, &registry, &mut result);
    assert!(result.is_valid(), "G0 with X parameter should be valid");

    // Test 2: Invalid G0 command with no coordinates (only F parameter)
    let invalid_cmd = Command {
        name: "G0".to_string(),
        parameters: vec![Parameter {
            letter: 'F',
            value: "1000.0".to_string(),
        }],
        comment: None,
    };

    let mut result = ValidationResult::new();
    validate_command(1, &invalid_cmd, &registry, &mut result);

    assert!(!result.is_valid(), "G0 without coordinates should be invalid");
    assert_eq!(result.diagnostics.len(), 1);
    assert!(result.diagnostics[0]
        .message
        .contains("requires at least one coordinate"));

    // Test 3: Valid G0 command with multiple coordinates
    let valid_multi_cmd = Command {
        name: "G0".to_string(),
        parameters: vec![
            Parameter {
                letter: 'X',
                value: "10.0".to_string(),
            },
            Parameter {
                letter: 'Y',
                value: "20.0".to_string(),
            },
        ],
        comment: None,
    };

    let mut result = ValidationResult::new();
    validate_command(1, &valid_multi_cmd, &registry, &mut result);
    assert!(result.is_valid(), "G0 with multiple coordinates should be valid");
}

#[test]
fn require_any_of_scenario() {
    // G0/G1 with no required params but a RequireAnyOf[X,Y,Z] constraint:
    // "G0" yields exactly one error, "G0 X10" yields no diagnostics.
    let make_move = |name: &str| CommandDef {
        name: name.to_string(),
        description_short: None,
        description_long: None,
        parameters: Some(vec![
            float_param("X", false),
            float_param("Y", false),
            float_param("Z", false),
        ]),
        constraints: Some(vec![ParameterConstraint {
            constraint_type: ConstraintType::RequireAnyOf,
            parameters: vec!["X".to_string(), "Y".to_string(), "Z".to_string()],
            message: None,
        }]),
    };
    let registry = registry_with(vec![make_move("G0"), make_move("G1")]);

    let result = validate_document("G0", &registry);
    assert_eq!(result.diagnostics.len(), 1);
    assert_eq!(result.diagnostics[0].severity, Severity::Error);

    let result = validate_document("G0 X10", &registry);
    assert_eq!(result.diagnostics.len(), 0);
}

#[test]
fn required_parameter_scenario() {
    // M104 requiring S(Float): "M104" yields one error mentioning S;
    // "M104 S210" yields none; "M104 Sabc" yields one error.
    let m104 = CommandDef {
        name: "M104".to_string(),
        description_short: Some("Set hotend temperature".to_string()),
        description_long: None,
        parameters: Some(vec![float_param("S", true)]),
        constraints: None,
    };
    let registry = registry_with(vec![m104]);

    let result = validate_document("M104", &registry);
    assert_eq!(result.diagnostics.len(), 1);
    assert_eq!(result.diagnostics[0].severity, Severity::Error);
    assert!(result.diagnostics[0].message.contains("S"));

    let result = validate_document("M104 S210", &registry);
    assert_eq!(result.diagnostics.len(), 0);

    let result = validate_document("M104 Sabc", &registry);
    assert_eq!(result.diagnostics.len(), 1);
    assert_eq!(result.diagnostics[0].severity, Severity::Error);
}

#[test]
fn empty_registry_yields_only_warnings() {
    // With no active flavor any command line yields only warnings:
    // unknown command plus one unknown parameter per parameter.
    let registry = FlavorRegistry::new();
    let result = validate_document("G1 X10 Y20", &registry);
    assert_eq!(result.diagnostics.len(), 3);
    for d in &result.diagnostics {
        assert_eq!(d.severity, Severity::Warning);
    }
    assert!(result.is_valid());
}

#[test]
fn unknown_parameter_warns() {
    let g1 = CommandDef {
        name: "G1".to_string(),
        description_short: None,
        description_long: None,
        parameters: Some(vec![float_param("X", false)]),
        constraints: None,
    };
    let registry = registry_with(vec![g1]);

    let result = validate_document("G1 X10", &registry);
    assert_eq!(result.diagnostics.len(), 0);

    let result = validate_document("G1 Z10", &registry);
    assert_eq!(result.diagnostics.len(), 1);
    assert_eq!(result.diagnostics[0].severity, Severity::Warning);
    assert!(result.diagnostics[0].message.contains("Z"));
    assert!(result.diagnostics[0].message.contains("G1"));
}

#[test]
fn multi_line_document_line_numbers() {
    let g1 = CommandDef {
        name: "G1".to_string(),
        description_short: None,
        description_long: None,
        parameters: Some(vec![float_param("X", false), float_param("Y", false)]),
        constraints: None,
    };
    let g28 = CommandDef {
        name: "G28".to_string(),
        description_short: None,
        description_long: None,
        parameters: None,
        constraints: None,
    };
    let registry = registry_with(vec![g1, g28]);

    let result = validate_document("G28\nG1 X10 Y20\nG999 Z30", &registry);
    // line 3: unknown command plus its unknown parameter, both warnings
    assert_eq!(result.diagnostics.len(), 2);
    assert!(result.diagnostics.iter().all(|d| d.line == 3));
    assert!(result
        .diagnostics
        .iter()
        .any(|d| d.message.contains("G999")));
    assert!(result.diagnostics.iter().any(|d| d.message.contains("Z")));
}

#[test]
fn parameter_type_and_range_checks() {
    let s_int = ParameterDef {
        name: "S".to_string(),
        param_type: ParameterType::Int,
        required: false,
        description: "fan speed".to_string(),
        constraints: Some(ParameterConstraints {
            min_value: Some(Decimal::from_whole(0)),
            max_value: Some(Decimal::from_whole(255)),
            enum_values: None,
        }),
        aliases: None,
    };
    let m106 = CommandDef {
        name: "M106".to_string(),
        description_short: None,
        description_long: None,
        parameters: Some(vec![s_int]),
        constraints: None,
    };
    let registry = registry_with(vec![m106]);

    assert!(validate_document("M106 S128", &registry).is_valid());
    // a fraction fails the integer type
    assert!(!validate_document("M106 S1.5", &registry).is_valid());
    // out of range
    assert!(!validate_document("M106 S300", &registry).is_valid());
    assert!(!validate_document("M106 S-1", &registry).is_valid());
}

#[test]
fn bool_parameter_words() {
    let b = ParameterDef {
        name: "P".to_string(),
        param_type: ParameterType::Bool,
        required: false,
        description: "a switch".to_string(),
        constraints: None,
        aliases: None,
    };
    let m999 = CommandDef {
        name: "M42".to_string(),
        description_short: None,
        description_long: None,
        parameters: Some(vec![b]),
        constraints: None,
    };
    let registry = registry_with(vec![m999]);

    for ok in ["Ptrue", "Pfalse", "P1", "P0", "Pon", "POFF"] {
        let text = format!("M42 {}", ok);
        assert!(validate_document(&text, &registry).is_valid(), "{}", ok);
    }
    assert!(!validate_document("M42 Pmaybe", &registry).is_valid());
}

#[test]
fn enum_constrained_string_parameter() {
    let mode = ParameterDef {
        name: "P".to_string(),
        param_type: ParameterType::String,
        required: false,
        description: "mode".to_string(),
        constraints: Some(ParameterConstraints {
            min_value: None,
            max_value: None,
            enum_values: Some(vec!["fast".to_string(), "slow".to_string()]),
        }),
        aliases: None,
    };
    let m5000 = CommandDef {
        name: "M5000".to_string(),
        description_short: None,
        description_long: None,
        parameters: Some(vec![mode]),
        constraints: None,
    };
    let registry = registry_with(vec![m5000]);

    assert!(validate_document("M5000 Pfast", &registry).is_valid());
    assert!(validate_document("M5000 PSLOW", &registry).is_valid());
    let bad = validate_document("M5000 Pturbo", &registry);
    assert!(!bad.is_valid());
    // the error lists the allowed set
    assert!(bad.diagnostics[0].message.contains("is not one of: fast, slow"));
}

#[test]
fn alias_satisfies_required_parameter() {
    let e_with_alias = ParameterDef {
        name: "E".to_string(),
        param_type: ParameterType::Float,
        required: true,
        description: "extrusion".to_string(),
        constraints: None,
        aliases: Some(vec!["A".to_string()]),
    };
    let g1 = CommandDef {
        name: "G1".to_string(),
        description_short: None,
        description_long: None,
        parameters: Some(vec![e_with_alias]),
        constraints: None,
    };
    let registry = registry_with(vec![g1]);

    // the alias counts as supplying the required parameter
    assert!(validate_document("G1 A5", &registry).is_valid());
    // without it the error names the parameter
    let missing = validate_document("G1", &registry);
    assert!(!missing.is_valid());
    assert!(missing.diagnostics[0].message.contains("E"));
}

#[test]
fn lowercase_command_is_found() {
    let g28 = CommandDef {
        name: "G28".to_string(),
        description_short: None,
        description_long: None,
        parameters: None,
        constraints: None,
    };
    let registry = registry_with(vec![g28]);
    assert_eq!(validate_document("g28", &registry).diagnostics.len(), 0);
}

#[test]
fn comments_and_blank_lines_are_valid() {
    let registry = FlavorRegistry::new();
    let result = validate_document("; a comment\n\n(another)\n", &registry);
    assert_eq!(result.diagnostics.len(), 0);
    assert!(result.is_valid());
}

#[test]
fn validating_twice_gives_equal_diagnostics() {
    let registry = FlavorRegistry::new();
    let text = "G1 X10\nnot gcode\n; done";
    let a = validate_document(text, &registry);
    let b = validate_document(text, &registry);
    assert_eq!(a.diagnostics, b.diagnostics);
}
