use bf_editor::code::{fits_indentation, is_well_bracketed, Code};

fn chars(s: &str) -> Vec<char> {
    s.chars().collect()
}

fn raw_code(s: &str) -> Code {
    let mut c = Code::new();
    for (i, ch) in s.chars().enumerate() {
        c.insert(i, ch);
    }
    c
}

#[test]
fn from_string_collapses_blank_runs() {
    let c = Code::from_string("+  +\n\n-".to_string());
    assert_eq!(c.code(), &chars("+ +\n-"));
}

#[test]
fn from_string_keeps_one_space_and_one_newline_per_run() {
    let c = Code::from_string("a \n \n b".to_string());
    assert_eq!(c.code(), &chars("a \nb"));
}

#[test]
fn from_string_indents_a_loop() {
    let c = Code::from_string("[+]".to_string());
    assert_eq!(c.code(), &chars("[\n  +\n]\n"));
}

#[test]
fn from_string_indents_nested_loops() {
    let c = Code::from_string("[[-]]".to_string());
    assert_eq!(c.code(), &chars("[\n  [\n    -\n  ]\n  \n]\n"));
}

#[test]
fn indent_keeps_the_commands() {
    let src = "++ [> +\n\n<-]  >.";
    let c = Code::from_string(src.to_string());
    let kept: Vec<char> = c.code().iter().copied().filter(|&x| x != ' ' && x != '\n').collect();
    let orig: Vec<char> = src.chars().filter(|&x| x != ' ' && x != '\n').collect();
    assert_eq!(kept, orig);
}

#[test]
fn indent_again_on_edited_code() {
    let mut c = raw_code("[-]");
    c.indent();
    assert_eq!(c.code(), &chars("[\n  -\n]\n"));
    assert_eq!(c.len(), 8);
}

#[test]
fn lines_drop_the_unfinished_tail() {
    let c = raw_code("a\nbc\nd");
    assert_eq!(c.lines(), vec![vec!['a', ' '], vec!['b', 'c', ' ']]);
}

#[test]
fn lines_of_text_without_newline_are_empty() {
    let c = raw_code("+-");
    assert!(c.lines().is_empty());
}

#[test]
fn insert_and_remove_edit_in_place() {
    let mut c = raw_code("+-");
    c.insert(1, '>');
    assert_eq!(c.code(), &chars("+>-"));
    c.remove(0);
    assert_eq!(c.code(), &chars(">-"));
    assert_eq!(c.len(), 2);
}

#[test]
fn new_code_is_empty() {
    let c = Code::new();
    assert_eq!(c.len(), 0);
    assert!(c.code().is_empty());
}

#[test]
fn bracket_map_pairs_brackets() {
    let c = raw_code("[+[-]]");
    assert_eq!(c.bracklet_map(), vec![5, 0, 4, 0, 2, 0]);
}

#[test]
fn bracket_map_of_sibling_loops() {
    let c = raw_code("[][.]");
    assert_eq!(c.bracklet_map(), vec![1, 0, 4, 0, 2]);
}

#[test]
fn bracket_map_is_an_involution() {
    let c = raw_code("x[[]a[b]]");
    let m = c.bracklet_map();
    for (i, ch) in c.code().iter().enumerate() {
        if *ch == '[' || *ch == ']' {
            assert_eq!(m[m[i]], i);
        }
    }
}

#[test]
fn well_bracketed_checks() {
    assert!(is_well_bracketed(&chars("[]")));
    assert!(is_well_bracketed(&chars("a[b[c]d]")));
    assert!(is_well_bracketed(&chars("")));
    assert!(!is_well_bracketed(&chars("][")));
    assert!(!is_well_bracketed(&chars("[[]")));
    assert!(!is_well_bracketed(&chars("]")));
}

#[test]
fn indentation_checks() {
    assert!(fits_indentation(&chars("[[")));
    assert!(fits_indentation(&chars("+-")));
    assert!(!fits_indentation(&chars("]")));
    assert!(!fits_indentation(&chars("[]]")));
}

#[test]
fn cleaning_twice_is_cleaning_once() {
    let once = Code::from_string("+  -   >  <".to_string());
    let text: String = once.code().iter().collect();
    let twice = Code::from_string(text);
    assert_eq!(once.code(), twice.code());
    assert_eq!(once.code(), &chars("+ - > <"));
}
