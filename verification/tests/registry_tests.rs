use redclaw::errors::AgentError;
use redclaw::registry::{FunctionDefinition, ToolDefinition, ToolRegistry};

fn tool(name: &str, description: &str) -> ToolDefinition {
    ToolDefinition {
        function: FunctionDefinition {
            name: name.to_string(),
            description: description.to_string(),
            parameters: "{}".to_string(),
        },
    }
}

#[test]
fn execute_unregistered_name_fails_with_tool_not_found() {
    let registry = ToolRegistry::new();
    match registry.execute("nope") {
        Err(AgentError::ToolNotFound { name }) => assert_eq!(name, "nope"),
        _ => panic!("an unregistered name must fail with ToolNotFound"),
    }
}

#[test]
fn register_twice_keeps_only_the_second() {
    let mut registry = ToolRegistry::new();
    registry.register(tool("echo", "first version"));
    registry.register(tool("echo", "second version"));
    assert_eq!(registry.len(), 1);
    let d = registry.execute("echo").expect("a registered name resolves");
    assert_eq!(d.function.description, "second version");
}

#[test]
fn lookups_are_case_sensitive_exact_matches() {
    let mut registry = ToolRegistry::new();
    registry.register(tool("echo", "d"));
    assert!(registry.execute("Echo").is_err());
    assert!(registry.execute("echo ").is_err());
    assert!(registry.execute("echo").is_ok());
}

#[test]
fn definitions_list_every_registered_tool() {
    let mut registry = ToolRegistry::new();
    registry.register(tool("a", "da"));
    registry.register(tool("b", "db"));
    let defs = registry.get_definitions();
    assert_eq!(defs.len(), 2);
    let mut names: Vec<String> = defs.iter().map(|d| d.function.name.clone()).collect();
    names.sort();
    assert_eq!(names, vec!["a".to_string(), "b".to_string()]);
}
