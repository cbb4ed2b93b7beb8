use module_registry::module::Module;
use module_registry::state::State;

fn adder() -> Module {
    let mut m = Module::new("adder");
    m.add_input("a");
    m.add_input("b");
    m.add_output("sum");
    m
}

#[test]
fn new_module_has_no_entries() {
    let m = Module::new("clock");
    assert_eq!(m.name(), "clock");
    assert!(m.inputs().is_empty());
    assert!(m.outputs().is_empty());
}

#[test]
fn entries_keep_insertion_order() {
    let mut m = Module::new("mux");
    m.add_input("sel");
    m.add_input("a");
    m.add_input("b");
    m.add_output("y");
    m.add_output("valid");
    assert_eq!(m.name(), "mux");
    assert_eq!(m.inputs(), &vec!["sel".to_string(), "a".to_string(), "b".to_string()]);
    assert_eq!(m.outputs(), &vec!["y".to_string(), "valid".to_string()]);
}

#[test]
fn empty_strings_are_permitted() {
    let mut m = Module::new("");
    m.add_input("");
    m.add_output("");
    assert_eq!(m.name(), "");
    assert_eq!(m.inputs(), &vec![String::new()]);
    assert_eq!(m.outputs(), &vec![String::new()]);
    assert_eq!(m.to_text(), " {} -> {}");
}

#[test]
fn display_format_of_adder() {
    assert_eq!(adder().to_text(), "adder {a,b} -> {sum}");
}

#[test]
fn display_format_without_entries() {
    assert_eq!(Module::new("nop").to_text(), "nop {} -> {}");
}

#[test]
fn display_format_with_one_entry_each() {
    let mut m = Module::new("not");
    m.add_input("x");
    m.add_output("y");
    assert_eq!(m.to_text(), "not {x} -> {y}");
}

#[test]
fn display_format_keeps_empty_entries_apart() {
    let mut m = Module::new("m");
    m.add_input("");
    m.add_input("");
    m.add_input("c");
    assert_eq!(m.to_text(), "m {,,c} -> {}");
}

#[test]
fn new_state_is_empty() {
    assert!(State::new().modules().is_empty());
}

#[test]
fn add_appends_at_the_end() {
    let mut st = State::new();
    st.add(Module::new("first"));
    st.add(adder());
    st.add(Module::new("first"));
    let names: Vec<&str> = st.modules().iter().map(|m| m.name()).collect();
    assert_eq!(names, vec!["first", "adder", "first"]);
    assert_eq!(st.modules()[1].inputs().len(), 2);
}
