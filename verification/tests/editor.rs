use libabbs::apml::ast;
use libabbs::apml::editor::ApmlEditor;
use libabbs::apml::lst::ApmlLst;

#[test]
fn test_ensure_end_newline() {
    let mut editor = ApmlEditor::wrap(ApmlLst::parse("a=b").unwrap());
    editor.ensure_end_newline();
    assert_eq!(editor.unwrap().to_string(), "a=b\n");
}

#[test]
fn test_append_variable() {
    let mut editor = ApmlEditor::wrap(ApmlLst::parse("a=b\nb=c").unwrap());
    editor.append_var_ast("c", &ast::VariableValue::String("a".into()), None);
    assert_eq!(editor.unwrap().to_string(), "a=b\nb=c\nc=\"a\"\n");
    let mut editor = ApmlEditor::wrap(ApmlLst::parse("a=b\nb=c").unwrap());
    editor.append_var_ast("c", &ast::VariableValue::String("a".into()), Some("a"));
    assert_eq!(editor.unwrap().to_string(), "a=b\nc=\"a\"\nb=c");
    let mut editor = ApmlEditor::wrap(ApmlLst::parse("a=b\nb=c").unwrap());
    editor.append_var_ast("c", &ast::VariableValue::String("a".into()), Some("b"));
    assert_eq!(editor.unwrap().to_string(), "a=b\nb=c\nc=\"a\"\n");
    let mut editor = ApmlEditor::wrap(ApmlLst::parse("a=b\nb=c").unwrap());
    editor.append_var_ast("c", &ast::VariableValue::String("a".into()), Some("eee"));
    assert_eq!(editor.unwrap().to_string(), "a=b\nb=c\nc=\"a\"\n");
}

#[test]
fn test_replace_variable() {
    let mut editor = ApmlEditor::wrap(ApmlLst::parse("a=b\nb=c").unwrap());
    editor.replace_var_ast("c", &ast::VariableValue::String("a".into()));
    assert_eq!(editor.unwrap().to_string(), "a=b\nb=c\nc=\"a\"\n");
    let mut editor = ApmlEditor::wrap(ApmlLst::parse("a=b\nb=c").unwrap());
    editor.replace_var_ast("a", &ast::VariableValue::String("a".into()));
    assert_eq!(editor.unwrap().to_string(), "a=\"a\"\nb=c");
}

#[test]
fn test_remove_var() {
    let mut editor = ApmlEditor::wrap(ApmlLst::parse("a=b\nb=c\n\nc=\"$1\"").unwrap());
    editor.remove_var(editor.find_var("b").unwrap().0);
    assert_eq!(editor.unwrap().to_string(), "a=b\n\nc=\"$1\"");
    let mut editor =
        ApmlEditor::wrap(ApmlLst::parse("a=b # a\n# b\n# c\nb=c\n\n# a\nc=\"$1\"").unwrap());
    editor.remove_var(editor.find_var("b").unwrap().0);
    assert_eq!(editor.unwrap().to_string(), "a=b # a\n\n# a\nc=\"$1\"");
}

#[test]
fn test_comments() {
    let editor =
        ApmlEditor::wrap(ApmlLst::parse("a=b # a\n# b\n# c\nb=c\n\n# a\nc=\"$1\"").unwrap());
    assert_eq!(editor.comments().iter().count(), 4);
}

#[test]
fn test() {
    let lst = ApmlLst::parse("a=b\nb=c\nc=\"$1\"").unwrap();
    let mut editor = ApmlEditor::wrap(lst);
    assert_eq!(editor.lst_tokens_iter().count(), 5);
    assert_eq!(editor.lst_tokens_mut().len(), 5);
    assert_eq!(editor.ast_variables().unwrap().len(), 3);
    assert_eq!(editor.keys().iter().count(), 3);
    assert_eq!(editor.find_var("a").unwrap().0, 0);
    assert_eq!(editor.find_var("a").unwrap().1.name, "a");
    assert_eq!(editor.find_var("b").unwrap().0, 2);
    assert!(editor.find_var("A").is_none());
    let _ = editor.unwrap();
}

fn edited(source: &str, edit: impl FnOnce(&mut ApmlEditor)) -> String {
    let mut editor = ApmlEditor::wrap(ApmlLst::parse(source).unwrap());
    edit(&mut editor);
    let text = editor.unwrap().to_string();
    assert_eq!(ApmlLst::parse(&text).unwrap().to_string(), text);
    text
}

#[test]
fn ensure_end_newline_keeps_what_ends_with_one() {
    assert_eq!(edited("a=b\n", |e| e.ensure_end_newline()), "a=b\n");
    assert_eq!(edited("", |e| e.ensure_end_newline()), "");
    assert_eq!(edited("a=b #c", |e| e.ensure_end_newline()), "a=b #c\n");
    assert_eq!(edited("\n", |e| e.ensure_end_newline()), "\n");
}

#[test]
fn find_var_gives_the_first_of_two() {
    let editor = ApmlEditor::wrap(ApmlLst::parse("a=1\nb=2\na=3").unwrap());
    let (index, var) = editor.find_var("a").unwrap();
    assert_eq!(index, 0);
    assert_eq!(var.to_string(), "a=1");
    assert_eq!(editor.keys(), vec!["a", "b", "a"]);
    assert_eq!(editor.lst_variables().len(), 3);
    assert_eq!(editor.as_ref().0.len(), 5);
}

#[test]
fn append_follows_the_whole_line() {
    let value = ast::VariableValue::String("x y".into());
    assert_eq!(
        edited("a=b # c\nb=c\n", |e| e.append_var_ast("n", &value, Some("a"))),
        "a=b # c\nn=\"x y\"\nb=c\n"
    );
    assert_eq!(
        edited("a=b\na=c\n", |e| e.append_var_ast("n", &value, Some("a"))),
        "a=b\nn=\"x y\"\na=c\n"
    );
    assert_eq!(edited("", |e| e.append_var_ast("n", &value, None)), "n=\"x y\"\n");
    assert_eq!(
        edited("a=b\n", |e| e.append_var_ast("n", &value, Some("a"))),
        "a=b\nn=\"x y\"\n"
    );
}

#[test]
fn replace_keeps_the_line() {
    let value = ast::VariableValue::String("$x".into());
    assert_eq!(
        edited("# c\n  a=b  # d\na=e\n", |e| e.replace_var_ast("a", &value)),
        "# c\n  a=\"\\$x\"  # d\na=e\n"
    );
    assert_eq!(edited("", |e| e.replace_var_ast("a", &value)), "a=\"\\$x\"\n");
}

#[test]
fn remove_first_and_last_definition() {
    assert_eq!(edited("a=b\nb=c", |e| e.remove_var(0)), "b=c");
    assert_eq!(edited("a=b\nb=c", |e| e.remove_var(2)), "a=b\n");
    assert_eq!(edited("a=b", |e| e.remove_var(0)), "");
    assert_eq!(edited("a=b # c\nb=c", |e| e.remove_var(0)), "b=c");
    assert_eq!(edited(" a=b\nb=c", |e| e.remove_var(1)), " b=c");
}

#[test]
fn remove_keeps_comments_before_a_line_with_a_definition() {
    assert_eq!(edited("x=1\n# c\na=b\nb=c\n", |e| e.remove_var(4)), "x=1\n# c\nb=c\n");
    assert_eq!(edited("x=1\n# c\na=b\n\nb=c\n", |e| e.remove_var(4)), "x=1\n\nb=c\n");
    assert_eq!(edited("x=1\n# c\na=b\n", |e| e.remove_var(4)), "x=1\n");
    assert_eq!(edited("x=1\n# c\na=b", |e| e.remove_var(4)), "x=1\n");
}

#[test]
fn remove_takes_comment_lines_only() {
    assert_eq!(edited("x=1 # c\na=b\n", |e| e.remove_var(4)), "x=1 # c\n");
    assert_eq!(edited("x=1\n # c\na=b\n", |e| e.remove_var(5)), "x=1\n # c\n");
    assert_eq!(edited("x=1\n\n# c\na=b\n", |e| e.remove_var(5)), "x=1\n\n");
    assert_eq!(edited("# c\n# d\na=b\n", |e| e.remove_var(4)), "");
    assert_eq!(edited("# c\n\n# d\na=b\n", |e| e.remove_var(5)), "# c\n\n");
}

#[test]
fn comments_are_given_in_order() {
    let editor = ApmlEditor::wrap(ApmlLst::parse("a=b # a\n# b\n#\nb=c\n").unwrap());
    assert_eq!(editor.comments(), vec![" a", " b", ""]);
}

#[test]
fn ast_variables_fail_at_the_first_error() {
    let editor = ApmlEditor::wrap(ApmlLst::parse("a=1\nb=${\nc=$").unwrap());
    assert_eq!(editor.ast_variables(), Err(libabbs::apml::emit::EmitError::InvalidExpansion));
    let mut editor = ApmlEditor::wrap(ApmlLst::parse("a=1\nb=${b:x}\nc=$").unwrap());
    assert_eq!(editor.ast_variables(), Err(libabbs::apml::emit::EmitError::InvalidNumber));
    editor.remove_var(2);
    assert_eq!(editor.ast_variables(), Err(libabbs::apml::emit::EmitError::InvalidExpansion));
    editor.lst_tokens_mut().pop();
    assert_eq!(editor.lst_tokens().len(), 2);
    assert_eq!(editor.ast_variables().unwrap().len(), 1);
}
