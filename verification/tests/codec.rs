use module_registry::module::Module;
use module_registry::reader::{load, load_outline, load_root, Entry, Field, LoadError, Outline};
use module_registry::state::State;
use module_registry::writer::save;

fn module(name: &str, inputs: &[&str], outputs: &[&str]) -> Module {
    let mut m = Module::new(name);
    for i in inputs {
        m.add_input(i);
    }
    for o in outputs {
        m.add_output(o);
    }
    m
}

fn state(modules: Vec<Module>) -> State {
    let mut st = State::new();
    for m in modules {
        st.add(m);
    }
    st
}

fn summary(st: &State) -> Vec<(String, Vec<String>, Vec<String>)> {
    st.modules()
        .iter()
        .map(|m| (m.name().to_string(), m.inputs().clone(), m.outputs().clone()))
        .collect()
}

fn text(bytes: &[u8]) -> &str {
    std::str::from_utf8(bytes).unwrap()
}

#[test]
fn empty_registry_is_an_empty_root() {
    assert_eq!(text(&save(&State::new())), "<modules></modules>");
}

#[test]
fn document_of_adder() {
    let st = state(vec![module("adder", &["a", "b"], &["sum"])]);
    let expected = "<modules>\n  <module>\n    <name>adder</name>\n    <inputs>\n      \
                    <input>a</input>\n      <input>b</input></inputs>\n    <outputs>\n      \
                    <output>sum</output></outputs></module></modules>";
    assert_eq!(text(&save(&st)), expected);
}

#[test]
fn empty_lists_are_written_as_empty_elements() {
    let st = state(vec![module("nop", &[], &[])]);
    let xml = save(&st);
    assert_eq!(
        text(&xml),
        "<modules>\n  <module>\n    <name>nop</name>\n    <inputs></inputs>\n    \
         <outputs></outputs></module></modules>"
    );
    let mut back = State::new();
    assert_eq!(load(&mut back, &xml), Ok(()));
    assert_eq!(summary(&back), vec![("nop".to_string(), vec![], vec![])]);
}

#[test]
fn reserved_characters_are_escaped() {
    let st = state(vec![module("a<b", &["x&y", "\"q\""], &["it's", "p>q"])]);
    let xml = save(&st);
    let s = text(&xml);
    assert!(s.contains("<name>a&lt;b</name>"));
    assert!(s.contains("<input>x&amp;y</input>"));
    assert!(s.contains("<input>&quot;q&quot;</input>"));
    assert!(s.contains("<output>it&apos;s</output>"));
    assert!(s.contains("<output>p&gt;q</output>"));
    let mut back = State::new();
    assert_eq!(load(&mut back, &xml), Ok(()));
    assert_eq!(summary(&back), summary(&st));
}

#[test]
fn text_beyond_ascii_is_written_as_utf8() {
    let st = state(vec![module("größe", &["λ"], &["出力"])]);
    let xml = save(&st);
    assert!(text(&xml).contains("<name>größe</name>"));
    assert!(text(&xml).contains("<output>出力</output>"));
    let mut back = State::new();
    assert_eq!(load(&mut back, &xml), Ok(()));
    assert_eq!(summary(&back), summary(&st));
}

#[test]
fn save_then_load_gives_the_same_modules() {
    let st = state(vec![
        module("adder", &["a", "b"], &["sum"]),
        module("nop", &[], &[]),
        module("adder", &["b", "a"], &["sum", "carry"]),
        module("fanout", &["x"], &["y0", "y1", "y2"]),
    ]);
    let mut back = State::new();
    assert_eq!(load(&mut back, &save(&st)), Ok(()));
    assert_eq!(summary(&back), summary(&st));
    assert_eq!(save(&back), save(&st));
}

#[test]
fn save_then_load_of_the_empty_registry() {
    let mut back = State::new();
    assert_eq!(load(&mut back, &save(&State::new())), Ok(()));
    assert!(back.modules().is_empty());
}

#[test]
fn load_appends_behind_what_is_held() {
    let file = save(&state(vec![module("f1", &["i"], &[]), module("f2", &[], &["o"])]));
    let mut st = state(vec![module("held1", &[], &[]), module("held2", &[], &[])]);
    st.add(module("created", &["c"], &["d"]));
    assert_eq!(load(&mut st, &file), Ok(()));
    let names: Vec<&str> = st.modules().iter().map(|m| m.name()).collect();
    assert_eq!(names, vec!["held1", "held2", "created", "f1", "f2"]);
    assert_eq!(st.modules()[2].inputs(), &vec!["c".to_string()]);
    assert_eq!(st.modules()[4].outputs(), &vec!["o".to_string()]);
}

#[test]
fn loading_twice_appends_twice() {
    let file = save(&state(vec![module("m", &["i"], &["o"])]));
    let mut st = State::new();
    assert_eq!(load(&mut st, &file), Ok(()));
    assert_eq!(load(&mut st, &file), Ok(()));
    assert_eq!(st.modules().len(), 2);
}

#[test]
fn unknown_children_of_the_root_are_passed_over() {
    let xml = "<modules><comment>x</comment>\
               <module><name>a</name><inputs><input>i</input></inputs><outputs/></module>\
               <note/>\
               <module><name>b</name><inputs/><outputs><output>o</output></outputs></module>\
               <comment><name>c</name></comment></modules>";
    let mut st = State::new();
    assert_eq!(load(&mut st, xml.as_bytes()), Ok(()));
    assert_eq!(
        summary(&st),
        vec![
            ("a".to_string(), vec!["i".to_string()], vec![]),
            ("b".to_string(), vec![], vec!["o".to_string()]),
        ]
    );
}

#[test]
fn unknown_children_of_a_module_are_passed_over() {
    let xml = "<modules><module><doc>d</doc><outputs/><name>a</name><inputs/></module></modules>";
    let mut st = State::new();
    assert_eq!(load(&mut st, xml.as_bytes()), Ok(()));
    assert_eq!(summary(&st), vec![("a".to_string(), vec![], vec![])]);
}

#[test]
fn the_first_of_repeated_children_counts() {
    let xml = "<modules><module><name>first</name><name>second</name>\
               <inputs><input>i1</input></inputs><inputs><input>i2</input></inputs>\
               <outputs/></module></modules>";
    let mut st = State::new();
    assert_eq!(load(&mut st, xml.as_bytes()), Ok(()));
    assert_eq!(summary(&st), vec![("first".to_string(), vec!["i1".to_string()], vec![])]);
}

#[test]
fn entries_of_a_list_may_have_any_name() {
    let xml = "<modules><module><name>a</name><inputs><x>i1</x><y>i2</y></inputs>\
               <outputs/></module></modules>";
    let mut st = State::new();
    assert_eq!(load(&mut st, xml.as_bytes()), Ok(()));
    assert_eq!(
        summary(&st),
        vec![("a".to_string(), vec!["i1".to_string(), "i2".to_string()], vec![])]
    );
}

#[test]
fn a_declaration_and_layout_do_not_matter() {
    let xml = "<?xml version=\"1.0\" encoding=\"UTF-8\"?>\n<modules>\n\t<module>\n\t\t\
               <name>a b</name>\n\t\t<inputs>\n\t\t</inputs>\n\t\t<outputs>\n\t\t\t\
               <output> o </output>\n\t\t</outputs>\n\t</module>\n</modules>\n";
    let mut st = State::new();
    assert_eq!(load(&mut st, xml.as_bytes()), Ok(()));
    assert_eq!(summary(&st), vec![("a b".to_string(), vec![], vec![" o ".to_string()])]);
}

#[test]
fn bytes_that_are_no_document_are_a_syntax_error() {
    for bad in ["", "plain text", "<modules>", "<modules></module>", "<modules><module></modules>"] {
        let mut st = state(vec![module("held", &[], &[])]);
        assert_eq!(load(&mut st, bad.as_bytes()), Err(LoadError::Syntax), "{:?}", bad);
        assert_eq!(st.modules().len(), 1);
    }
}

#[test]
fn a_root_of_another_name_is_refused() {
    let xml = "<registry><module><name>a</name><inputs/><outputs/></module></registry>";
    let mut st = State::new();
    assert_eq!(load(&mut st, xml.as_bytes()), Err(LoadError::RootName));
    assert!(st.modules().is_empty());
}

#[test]
fn each_missing_part_has_its_error() {
    let cases = [
        ("<module><inputs/><outputs/></module>", LoadError::MissingName),
        ("<module><name/><inputs/><outputs/></module>", LoadError::EmptyName),
        ("<module><name></name><inputs/><outputs/></module>", LoadError::EmptyName),
        ("<module><name>a</name><outputs/></module>", LoadError::MissingInputs),
        ("<module><name>a</name><inputs><input/></inputs><outputs/></module>", LoadError::EmptyInput),
        ("<module><name>a</name><inputs/></module>", LoadError::MissingOutputs),
        (
            "<module><name>a</name><inputs/><outputs><output>o</output><output/></outputs></module>",
            LoadError::EmptyOutput,
        ),
        ("<module/>", LoadError::MissingName),
    ];
    for (body, expected) in cases {
        let xml = format!("<modules>{}</modules>", body);
        let mut st = State::new();
        assert_eq!(load(&mut st, xml.as_bytes()), Err(expected), "{}", body);
        assert!(st.modules().is_empty());
    }
}

#[test]
fn the_name_is_looked_at_before_the_lists() {
    let xml = "<modules><module><name/><inputs><input/></inputs></module></modules>";
    let mut st = State::new();
    assert_eq!(load(&mut st, xml.as_bytes()), Err(LoadError::EmptyName));
    let xml = "<modules><module><name>a</name><inputs><input/></inputs></module></modules>";
    assert_eq!(load(&mut st, xml.as_bytes()), Err(LoadError::EmptyInput));
}

#[test]
fn modules_before_a_faulty_one_stay_loaded() {
    let xml = "<modules><module><name>ok</name><inputs/><outputs/></module>\
               <module><name>bad</name><inputs/></module>\
               <module><name>late</name><inputs/><outputs/></module></modules>";
    let mut st = state(vec![module("held", &[], &[])]);
    assert_eq!(load(&mut st, xml.as_bytes()), Err(LoadError::MissingOutputs));
    let names: Vec<&str> = st.modules().iter().map(|m| m.name()).collect();
    assert_eq!(names, vec!["held", "ok"]);
}

#[test]
fn an_empty_name_does_not_come_back() {
    let st = state(vec![module("", &[], &[])]);
    let mut back = State::new();
    assert_eq!(load(&mut back, &save(&st)), Err(LoadError::EmptyName));
}

#[test]
fn an_empty_entry_does_not_come_back() {
    let st = state(vec![module("m", &["a", ""], &[])]);
    let mut back = State::new();
    assert_eq!(load(&mut back, &save(&st)), Err(LoadError::EmptyInput));
    let st = state(vec![module("m", &["a"], &[""])]);
    assert_eq!(load(&mut back, &save(&st)), Err(LoadError::EmptyOutput));
    assert!(back.modules().is_empty());
}

#[test]
fn a_name_of_spaces_does_not_come_back() {
    let st = state(vec![module(" ", &[], &[])]);
    let mut back = State::new();
    assert_eq!(load(&mut back, &save(&st)), Err(LoadError::EmptyName));
    assert!(back.modules().is_empty());
}

#[test]
fn space_around_a_text_comes_back() {
    let st = state(vec![module(" a ", &["x  y", "\tab\t"], &["line\nbreak", "\u{a0}"])]);
    let mut back = State::new();
    assert_eq!(load(&mut back, &save(&st)), Ok(()));
    assert_eq!(summary(&back), summary(&st));
}

#[test]
fn a_control_character_makes_the_document_unreadable() {
    let st = state(vec![module("a\u{1}b", &[], &[])]);
    let mut back = State::new();
    assert_eq!(load(&mut back, &save(&st)), Err(LoadError::Syntax));
}

#[test]
fn a_prefix_on_an_element_is_not_looked_at() {
    let xml = "<m:modules xmlns:m=\"u\"><m:module><m:name>a</m:name><inputs/><outputs/>\
               </m:module></m:modules>";
    let mut st = State::new();
    assert_eq!(load(&mut st, xml.as_bytes()), Ok(()));
    assert_eq!(summary(&st), vec![("a".to_string(), vec![], vec![])]);
}

fn field(name: &str, text: Option<&str>, items: &[Option<&str>]) -> Field {
    Field {
        name: name.to_string(),
        text: text.map(|t| t.to_string()),
        items: items.iter().map(|i| i.map(|t| t.to_string())).collect(),
    }
}

#[test]
fn outline_of_one_module() {
    let o = Outline {
        name: "modules".to_string(),
        entries: vec![Entry {
            name: "module".to_string(),
            fields: vec![
                field("name", Some("adder"), &[]),
                field("inputs", None, &[Some("a"), Some("b")]),
                field("outputs", None, &[Some("sum")]),
            ],
        }],
    };
    let mut st = State::new();
    assert_eq!(load_outline(&mut st, &o), Ok(()));
    assert_eq!(
        summary(&st),
        vec![(
            "adder".to_string(),
            vec!["a".to_string(), "b".to_string()],
            vec!["sum".to_string()]
        )]
    );
}

#[test]
fn a_document_without_a_root_is_refused() {
    let mut st = state(vec![module("held", &[], &[])]);
    assert_eq!(load_root(&mut st, &None), Err(LoadError::NoRoot));
    assert_eq!(st.modules().len(), 1);
}

#[test]
fn a_root_is_loaded_as_its_outline() {
    let o = Outline {
        name: "modules".to_string(),
        entries: vec![Entry {
            name: "module".to_string(),
            fields: vec![
                field("name", Some("n"), &[]),
                field("inputs", None, &[]),
                field("outputs", None, &[]),
            ],
        }],
    };
    let mut st = State::new();
    assert_eq!(load_root(&mut st, &Some(o)), Ok(()));
    assert_eq!(summary(&st), vec![("n".to_string(), vec![], vec![])]);
}

#[test]
fn outline_with_a_wrong_root() {
    let o = Outline { name: "module".to_string(), entries: vec![] };
    let mut st = State::new();
    assert_eq!(load_outline(&mut st, &o), Err(LoadError::RootName));
}

#[test]
fn outline_with_other_entries_and_a_fault() {
    let good = |n: &str| Entry {
        name: "module".to_string(),
        fields: vec![field("outputs", None, &[]), field("inputs", None, &[]), field("name", Some(n), &[])],
    };
    let o = Outline {
        name: "modules".to_string(),
        entries: vec![
            Entry { name: "comment".to_string(), fields: vec![] },
            good("a"),
            Entry { name: "Module".to_string(), fields: vec![] },
            good("b"),
            Entry {
                name: "module".to_string(),
                fields: vec![field("name", Some("c"), &[]), field("inputs", None, &[Some("i"), None])],
            },
            good("d"),
        ],
    };
    let mut st = State::new();
    assert_eq!(load_outline(&mut st, &o), Err(LoadError::EmptyInput));
    let names: Vec<&str> = st.modules().iter().map(|m| m.name()).collect();
    assert_eq!(names, vec!["a", "b"]);
}
