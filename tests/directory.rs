use text_tools::directory::{CommandResult, CompanyDirectory};

#[test]
fn add_employees() {
    let mut directory = CompanyDirectory::new();
    directory.add_employee("Eve", "HR");
    directory.add_employee("Adam", "HR");
    directory.add_employee("Gerry", "HR");

    let employees = directory.get_department("HR").unwrap();
    assert_eq!(employees, vec!["Adam", "Eve", "Gerry"])
}

#[test]
fn get_empty_deparment() {
    let directory = CompanyDirectory::new();
    let employees = directory.get_department("HR");
    assert_eq!(employees, None)
}

#[test]
fn parse_error() {
    let mut directory = CompanyDirectory::new();
    let user_input = "List HR";
    let output = directory.parse_command(user_input);
    assert!(matches!(output, CommandResult::ParseError(_)));
}

#[test]
fn parse_add() {
    let mut directory = CompanyDirectory::new();
    let user_input = "Add Eve to HR";
    let result = directory.parse_command(user_input);
    assert!(matches!(result, CommandResult::Add));
}

#[test]
fn parse_show() {
    let mut directory = CompanyDirectory::new();
    directory.add_employee("Eve", "HR");
    let user_input = "Show HR";
    let result = directory.parse_command(user_input);
    if let CommandResult::Show(Some(names)) = result {
        assert_eq!(names, vec!["Eve"]);
    } else {
        panic!("Expected CommandResult::Show(Some(...)), got {result:?}");
    }
}

#[test]
fn parse_show_empty() {
    let mut directory = CompanyDirectory::new();
    let user_input = "Show HR";
    let result = directory.parse_command(user_input);
    assert!(matches!(result, CommandResult::Show(None)));
}

#[test]
fn departments_are_kept_apart() {
    let mut directory = CompanyDirectory::default();
    assert_eq!(directory.parse_command("Add Zoe to Sales"), CommandResult::Add);
    assert_eq!(directory.parse_command("  Add   Bob to\tSales\n"), CommandResult::Add);
    assert_eq!(directory.parse_command("Add Ann to HR"), CommandResult::Add);
    assert_eq!(directory.parse_command("Add Bob to Sales"), CommandResult::Add);
    assert_eq!(
        directory.parse_command("Show Sales"),
        CommandResult::Show(Some(vec!["Bob".to_string(), "Bob".to_string(), "Zoe".to_string()]))
    );
    assert_eq!(
        directory.parse_command("Show HR"),
        CommandResult::Show(Some(vec!["Ann".to_string()]))
    );
    assert_eq!(directory.parse_command("Show sales"), CommandResult::Show(None));
}

#[test]
fn malformed_commands_change_nothing() {
    let mut directory = CompanyDirectory::new();
    let message = CommandResult::ParseError("Could not interpret command.".to_string());
    assert_eq!(directory.parse_command(""), message);
    assert_eq!(directory.parse_command("Add Eve into HR"), message);
    assert_eq!(directory.parse_command("Add Eve to HR now"), message);
    assert_eq!(directory.parse_command("show HR"), message);
    assert_eq!(directory.get_department("HR"), None);
}

#[test]
fn names_sort_by_character_codes() {
    let mut directory = CompanyDirectory::new();
    directory.add_employee("eve", "HR");
    directory.add_employee("Eve", "HR");
    directory.add_employee("Ève", "HR");
    directory.add_employee("Ev", "HR");
    assert_eq!(directory.get_department("HR").unwrap(), vec!["Ev", "Eve", "eve", "Ève"]);
}
