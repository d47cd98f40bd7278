//! Tests for the flavor schema, the registry, modeline detection, and
//! priority-based resolution.

use gcode_language_server::flavor::registry::extract_flavor_from_modeline;
use gcode_language_server::flavor::resolve::{
    detect_modeline_flavor, find_loaded, insert_loaded, select_effective_flavor,
    FlavorPriority, FlavorSelectionConfig, LoadedFlavor,
};
use gcode_language_server::flavor::schema::{CommandSet, FlavorFile, FlavorMeta};
use gcode_language_server::flavor::{
    CommandDef, Flavor, FlavorRegistry, ParameterConstraints, ParameterDef, ParameterType,
};
use gcode_language_server::validation::validate_document;
use gcode_language_server::value::Decimal;

fn plain_command(name: &str, short: &str) -> CommandDef {
    CommandDef {
        name: name.to_string(),
        description_short: Some(short.to_string()),
        description_long: None,
        parameters: None,
        constraints: None,
    }
}

fn flavor_named(name: &str, commands: Vec<CommandDef>) -> Flavor {
    Flavor::from(FlavorFile {
        flavor: FlavorMeta {
            name: name.to_string(),
            version: None,
            description: None,
        },
        commands,
    })
}

#[test]
fn test_registry_creation() {
    let registry = FlavorRegistry::new();
    assert!(registry.list_flavors().is_empty());
    assert!(registry.get_active_flavor().is_none());
}

#[test]
fn test_add_and_activate_flavor() {
    let mut registry = FlavorRegistry::new();

    let file = FlavorFile {
        flavor: FlavorMeta {
            name: "test".to_string(),
            version: None,
            description: None,
        },
        commands: vec![],
    };
    let flavor = Flavor::from(file);

    registry.add_flavor(flavor);
    assert!(registry.set_active_flavor("test"));

    assert!(registry.get_active_flavor().is_some());
    assert_eq!(registry.get_active_flavor().unwrap().name, "test");
}

#[test]
fn test_get_command() {
    let mut registry = FlavorRegistry::new();

    let file = FlavorFile {
        flavor: FlavorMeta {
            name: "test".to_string(),
            version: None,
            description: None,
        },
        commands: vec![plain_command("G1", "Linear move")],
    };
    let flavor = Flavor::from(file);

    registry.add_flavor(flavor);
    assert!(registry.set_active_flavor("test"));

    let command = registry.get_command("G1");
    assert!(command.is_some());
    assert_eq!(command.unwrap().name, "G1");
    assert_eq!(
        command.unwrap().description_short,
        Some("Linear move".to_string())
    );
}

#[test]
fn test_nonexistent_flavor() {
    let mut registry = FlavorRegistry::new();
    assert!(!registry.set_active_flavor("nonexistent"));
    assert!(registry.get_command("G1").is_none());
}

#[test]
fn test_flavor_from_file() {
    let file = FlavorFile {
        flavor: FlavorMeta {
            name: "test".to_string(),
            version: Some("1.0".to_string()),
            description: None,
        },
        commands: vec![plain_command("G1", "Linear move")],
    };

    let flavor = Flavor::from(file);
    assert_eq!(flavor.name, "test");
    assert_eq!(flavor.commands.len(), 1);
    assert!(flavor.commands.contains_key("G1"));
}

#[test]
fn test_parameter_matches_name() {
    let param = ParameterDef {
        name: "X".to_string(),
        param_type: ParameterType::Float,
        required: false,
        description: "X coordinate".to_string(),
        constraints: None,
        aliases: Some(vec!["x".to_string()]),
    };

    assert!(param.matches_name("X"));
    assert!(param.matches_name("x"));
    assert!(!param.matches_name("Y"));
}

#[test]
fn test_parameter_validation() {
    let param = ParameterDef {
        name: "S".to_string(),
        param_type: ParameterType::Int,
        required: false,
        description: "Speed".to_string(),
        constraints: Some(ParameterConstraints {
            min_value: Some(Decimal::from_whole(0)),
            max_value: Some(Decimal::from_whole(255)),
            enum_values: None,
        }),
        aliases: None,
    };

    assert!(param.validate("100").is_ok());
    assert!(param.validate("300").is_err()); // Above max
    assert!(param.validate("-10").is_err()); // Below min
    assert!(param.validate("abc").is_err()); // Not a number
}

#[test]
fn test_command_find_parameter() {
    let cmd = CommandDef {
        name: "G1".to_string(),
        description_short: None,
        description_long: None,
        parameters: Some(vec![ParameterDef {
            name: "X".to_string(),
            param_type: ParameterType::Float,
            required: false,
            description: "X coordinate".to_string(),
            constraints: None,
            aliases: None,
        }]),
        constraints: None,
    };

    assert!(cmd.find_parameter("X").is_some());
    assert!(cmd.find_parameter("Y").is_none());
}

#[test]
fn test_modeline_positions() {
    // Test modeline at top
    let content_top = "; gcode_flavor=marlin\nG28\nG1 X10\n";
    assert_eq!(
        detect_modeline_flavor(content_top),
        Some("marlin".to_string())
    );

    // Test modeline at bottom
    let content_bottom = "G28\nG1 X10\nG1 Y20\n; more lines\n; to make it longer\n; gcode_flavor=prusa";
    assert_eq!(
        detect_modeline_flavor(content_bottom),
        Some("prusa".to_string())
    );

    // Test modeline in middle of long file (should NOT be detected)
    let content_middle = format!(
        "{}\n; gcode_flavor=klipper\n{}",
        "G0\n".repeat(10),
        "G1\n".repeat(10)
    );
    assert_eq!(detect_modeline_flavor(&content_middle), None);
}

#[test]
fn modeline_detection_window() {
    // a directive on line 1 is detected
    let mut lines: Vec<String> = Vec::new();
    for i in 0..12 {
        if i == 0 {
            lines.push("; gcode_flavor=prusa".to_string());
        } else {
            lines.push("G1 X1".to_string());
        }
    }
    let text = lines.join("\n");
    assert_eq!(detect_modeline_flavor(&text), Some("prusa".to_string()));

    // a directive on line 6 of 12 lies outside the first and last five
    // lines and is ignored
    let mut lines: Vec<String> = Vec::new();
    for i in 0..12 {
        if i == 5 {
            lines.push("; gcode_flavor=prusa".to_string());
        } else {
            lines.push("G1 X1".to_string());
        }
    }
    let text = lines.join("\n");
    assert_eq!(detect_modeline_flavor(&text), None);

    // a directive on line 3 of 12 still lies within the first five lines
    let mut lines: Vec<String> = Vec::new();
    for i in 0..12 {
        if i == 2 {
            lines.push("; gcode_flavor=prusa".to_string());
        } else {
            lines.push("G1 X1".to_string());
        }
    }
    let text = lines.join("\n");
    assert_eq!(detect_modeline_flavor(&text), Some("prusa".to_string()));
}

#[test]
fn modeline_whitespace_around_equals() {
    assert_eq!(
        extract_flavor_from_modeline("; vim: gcode_flavor = my-flavor_2"),
        Some("my-flavor_2".to_string())
    );
    assert_eq!(extract_flavor_from_modeline("; gcode_flavor="), None);
    assert_eq!(extract_flavor_from_modeline("; nothing here"), None);
}

#[test]
fn registry_checked_modeline_requires_known_flavor() {
    let mut registry = FlavorRegistry::new();
    registry.add_flavor(flavor_named("prusa", vec![]));

    // a known flavor is accepted
    assert_eq!(
        registry.detect_modeline_flavor("; gcode_flavor=prusa\nG28\n"),
        Some("prusa".to_string())
    );
    // an unknown flavor is ignored
    assert_eq!(
        registry.detect_modeline_flavor("; gcode_flavor=marlin\nG28\n"),
        None
    );
}

#[test]
fn embedded_flavor_makes_registry_nonempty() {
    let mut registry = FlavorRegistry::new();
    registry.add_embedded_prusa_flavor();
    assert!(registry.set_active_flavor("prusa"));
    // lookup is case-insensitive on command names
    assert!(registry.get_command("g1").is_some());
    assert!(registry.get_command("G28").is_some());
    assert!(registry.get_command("G90").is_some());
    assert!(registry.get_command("M140").is_some());

    let mut minimal = FlavorRegistry::new();
    minimal.add_minimal_prusa_flavor();
    assert!(minimal.set_active_flavor("prusa"));
    assert!(minimal.get_command("G0").is_some());
    assert!(minimal.get_command("G1").is_some());
}

#[test]
fn embedded_flavor_enforces_its_rules() {
    let mut registry = FlavorRegistry::new();
    registry.add_embedded_prusa_flavor();
    assert!(registry.set_active_flavor("prusa"));

    // a move without any coordinate breaks the RequireAnyOf constraint
    assert!(!validate_document("G1 F1500", &registry).is_valid());
    assert!(validate_document("G1 X10 Y20 F1500", &registry).is_valid());
    // the hotend target is bounded to 300 degrees
    assert!(validate_document("M104 S210", &registry).is_valid());
    assert!(!validate_document("M104 S500", &registry).is_valid());
    // keeping other flavors: adding the embedded one removes nothing
    registry.add_flavor(gcode_language_server::Flavor {
        name: "marlin".to_string(),
        version: None,
        description: None,
        commands: CommandSet::new(),
    });
    registry.add_embedded_prusa_flavor();
    assert!(registry.get_flavor("marlin").is_some());
    assert!(registry.get_flavor("prusa").is_some());
}

#[test]
fn workspace_flavor_wins_over_builtin() {
    // BuiltIn flavor "prusa", then a Workspace-tier file also named "prusa":
    // the Workspace command set wins.
    let mut set: Vec<LoadedFlavor> = Vec::new();
    insert_loaded(
        &mut set,
        LoadedFlavor {
            flavor: flavor_named("prusa", vec![plain_command("G0", "builtin move")]),
            priority: FlavorPriority::BuiltIn,
            source_path: None,
        },
    );
    insert_loaded(
        &mut set,
        LoadedFlavor {
            flavor: flavor_named("prusa", vec![plain_command("M900", "workspace special")]),
            priority: FlavorPriority::Workspace,
            source_path: Some("workspace/prusa.toml".to_string()),
        },
    );
    assert_eq!(set.len(), 1);
    assert!(set[0].flavor.commands.contains_key("M900"));
    assert!(!set[0].flavor.commands.contains_key("G0"));
    assert_eq!(set[0].priority, FlavorPriority::Workspace);
}

#[test]
fn lower_priority_does_not_replace() {
    let mut set: Vec<LoadedFlavor> = Vec::new();
    insert_loaded(
        &mut set,
        LoadedFlavor {
            flavor: flavor_named("prusa", vec![plain_command("M900", "workspace special")]),
            priority: FlavorPriority::Workspace,
            source_path: None,
        },
    );
    insert_loaded(
        &mut set,
        LoadedFlavor {
            flavor: flavor_named("prusa", vec![plain_command("G0", "builtin move")]),
            priority: FlavorPriority::BuiltIn,
            source_path: None,
        },
    );
    assert_eq!(set.len(), 1);
    assert!(set[0].flavor.commands.contains_key("M900"));
    assert_eq!(set[0].priority, FlavorPriority::Workspace);
}

#[test]
fn effective_flavor_selection_order() {
    let mut set: Vec<LoadedFlavor> = Vec::new();
    insert_loaded(
        &mut set,
        LoadedFlavor {
            flavor: flavor_named("prusa", vec![]),
            priority: FlavorPriority::BuiltIn,
            source_path: None,
        },
    );
    insert_loaded(
        &mut set,
        LoadedFlavor {
            flavor: flavor_named("marlin", vec![]),
            priority: FlavorPriority::UserGlobal,
            source_path: None,
        },
    );

    // explicit override wins, no warnings
    let cfg = FlavorSelectionConfig {
        cli_flavor: Some("marlin".to_string()),
        project_flavor: Some("prusa".to_string()),
        project_config_path: None,
    };
    let (picked, warnings) = select_effective_flavor(&set, &cfg);
    assert_eq!(set[picked.unwrap()].flavor.name, "marlin");
    assert!(warnings.is_empty());

    // a missed override warns and falls back to the project flavor
    let cfg = FlavorSelectionConfig {
        cli_flavor: Some("klipper".to_string()),
        project_flavor: Some("marlin".to_string()),
        project_config_path: None,
    };
    let (picked, warnings) = select_effective_flavor(&set, &cfg);
    assert_eq!(set[picked.unwrap()].flavor.name, "marlin");
    assert_eq!(warnings.len(), 1);
    assert!(warnings[0].contains("klipper"));

    // with no preference the conventional default name is used
    let cfg = FlavorSelectionConfig {
        cli_flavor: None,
        project_flavor: None,
        project_config_path: None,
    };
    let (picked, warnings) = select_effective_flavor(&set, &cfg);
    assert_eq!(set[picked.unwrap()].flavor.name, "prusa");
    assert!(warnings.is_empty());

    // an empty set picks nothing and warns about the default
    let empty: Vec<LoadedFlavor> = Vec::new();
    let (picked, warnings) = select_effective_flavor(&empty, &cfg);
    assert!(picked.is_none());
    assert_eq!(warnings.len(), 1);
    assert!(find_loaded(&empty, "prusa").is_none());
}

#[test]
fn command_set_insert_overwrites_by_name() {
    let mut set = CommandSet::new();
    set.insert(plain_command("G1", "first"));
    set.insert(plain_command("g1", "second"));
    assert_eq!(set.len(), 1);
    let found = set.get("G1").unwrap();
    assert_eq!(found.description_short, Some("second".to_string()));
}

#[test]
fn validate_parameters_collects_all_complaints() {
    let s_req = ParameterDef {
        name: "S".to_string(),
        param_type: ParameterType::Int,
        required: true,
        description: "speed".to_string(),
        constraints: None,
        aliases: None,
    };
    let cmd = CommandDef {
        name: "M106".to_string(),
        description_short: None,
        description_long: None,
        parameters: Some(vec![s_req]),
        constraints: None,
    };

    // a good pair raises nothing
    let provided = vec![("S".to_string(), "200".to_string())];
    assert!(cmd.validate_parameters(&provided).is_empty());

    // an unknown name and a missing required parameter both complain
    let provided = vec![("Q".to_string(), "1".to_string())];
    let errors = cmd.validate_parameters(&provided);
    assert_eq!(errors.len(), 2);
    assert!(errors[0].contains("Unknown parameter 'Q'"));
    assert!(errors[1].contains("Missing required parameter 'S'"));

    // a bad value complains once
    let provided = vec![("S".to_string(), "fast".to_string())];
    let errors = cmd.validate_parameters(&provided);
    assert_eq!(errors.len(), 1);
    assert!(errors[0].contains("expects an integer"));
}
