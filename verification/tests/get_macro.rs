use dojo::get_macro::{GetMacro, CAIRO_ERR_MSG_LEN};
use dojo::inline_macro::{
    Expr, ExprKind, ExprList, InlineMacroExpanderData, WrappedExprList,
};

fn expr(kind: ExprKind, text: &str, components: &[&str]) -> Expr {
    let components = components.iter().map(|c| c.to_string()).collect();
    Expr { kind, text: text.to_string(), components }
}

fn arguments(keys: Expr, components: &[&str]) -> ExprList<u64> {
    ExprList {
        elements: vec![
            expr(ExprKind::Path, "world", &["world"]),
            keys,
            expr(ExprKind::Tuple, "(components)", components),
        ],
        stable_ptr: 7,
    }
}

fn fresh() -> InlineMacroExpanderData<u64> {
    InlineMacroExpanderData {
        result_code: "let x = ".to_string(),
        code_changed: false,
        diagnostics: Vec::new(),
    }
}

fn statements(component: &str, world: &str, args: &str, deser_err_msg: &str) -> String {
    format!(
        "\n            let mut __{component}_raw = {}.entity('{component}', \
         {component}KeysTrait::serialize_keys({args}), 0_u8, \
         dojo::SerdeLen::<{component}>::len());
                   let __{component} = serde::Serde::<{component}>::deserialize(
                       ref __{component}_raw
                   ).expect('{deser_err_msg}');",
        world,
    )
}

fn assert_reports(arguments: &ExprList<u64>, message: &str) {
    let mut data = fresh();
    assert!(GetMacro.can_expand(arguments));
    GetMacro.append_macro_code(&mut data, arguments);
    assert_eq!(data.result_code, "let x = ");
    assert!(!data.code_changed);
    assert_eq!(data.diagnostics.len(), 1);
    assert_eq!(data.diagnostics[0].message, message);
    assert_eq!(data.diagnostics[0].stable_ptr, 7);
}

fn expand(arguments: &ExprList<u64>) -> String {
    let mut data = fresh();
    assert!(GetMacro.can_expand(arguments));
    GetMacro.append_macro_code(&mut data, arguments);
    assert!(data.code_changed);
    assert!(data.diagnostics.is_empty());
    data.result_code.strip_prefix("let x = ").unwrap().to_string()
}

#[test]
fn get_takes_round_brackets_only() {
    assert!(GetMacro.is_bracket_type_allowed(WrappedExprList::ParenthesizedExprList));
    assert!(!GetMacro.is_bracket_type_allowed(WrappedExprList::BracketedExprList));
    assert!(!GetMacro.is_bracket_type_allowed(WrappedExprList::BracedExprList));
}

#[test]
fn get_expands_one_component() {
    let code = expand(&arguments(expr(ExprKind::Tuple, "(player, 1)", &[]), &["Moves"]));
    let expected = "{".to_string()
        + &statements("Moves", "world", "(player, 1)", "Moves failed to deserialize")
        + "(__Moves)\n        }";
    assert_eq!(code, expected);
    assert_eq!(
        code,
        "{\n            let mut __Moves_raw = world.entity('Moves', \
         MovesKeysTrait::serialize_keys((player, 1)), 0_u8, dojo::SerdeLen::<Moves>::len());\n\
         \x20                  let __Moves = serde::Serde::<Moves>::deserialize(\n\
         \x20                      ref __Moves_raw\n\
         \x20                  ).expect('Moves failed to deserialize');(__Moves)\n\x20       }"
    );
}

#[test]
fn get_expands_components_in_order() {
    let code = expand(&arguments(
        expr(ExprKind::Path, "player", &[]),
        &["Position", "Moves", "Position"],
    ));
    let expected = "{".to_string()
        + &statements("Position", "world", "player", "Position failed to deserialize")
        + &statements("Moves", "world", "player", "Moves failed to deserialize")
        + &statements("Position", "world", "player", "Position failed to deserialize")
        + "(__Position,__Moves,__Position)\n        }";
    assert_eq!(code, expected);
}

#[test]
fn get_puts_literal_keys_in_brackets() {
    let literal = expand(&arguments(expr(ExprKind::Literal, "5", &[]), &["Moves"]));
    let bracketed = expand(&arguments(expr(ExprKind::Parenthesized, "(5)", &[]), &["Moves"]));
    assert_eq!(literal, bracketed);
    let mut elsewhere = arguments(expr(ExprKind::Parenthesized, "(5)", &[]), &["Moves"]);
    elsewhere.stable_ptr = 8;
    assert_eq!(literal, expand(&elsewhere));
    assert!(literal.contains("serialize_keys((5))"));
}

#[test]
fn get_cuts_error_messages_to_a_short_string() {
    let name = "AComponentWithALongName";
    let code = expand(&arguments(expr(ExprKind::Path, "k", &[]), &[name]));
    let message = "AComponentWithALongName failed ";
    assert_eq!(message.len(), CAIRO_ERR_MSG_LEN);
    let expected = "{".to_string()
        + &statements(name, "world", "k", message)
        + "(__AComponentWithALongName)\n        }";
    assert_eq!(code, expected);

    // A name that fills the message to the last byte.
    let name = "Ninechars";
    let code = expand(&arguments(expr(ExprKind::Path, "k", &[]), &[name]));
    assert!(code.contains(".expect('Ninechars failed to deserialize');"));
    assert_eq!("Ninechars failed to deserialize".len(), CAIRO_ERR_MSG_LEN);
}

#[test]
fn get_cannot_cut_a_message_inside_a_character() {
    // Byte 31 is the second byte of the last character.
    let name = "a".repeat(30) + "\u{e9}";
    let args = arguments(expr(ExprKind::Path, "k", &[]), &[name.as_str()]);
    assert!(!GetMacro.can_expand(&args));
    // Byte 31 is behind it.
    let name = "a".repeat(29) + "\u{e9}";
    let args = arguments(expr(ExprKind::Path, "k", &[]), &[name.as_str()]);
    assert!(expand(&args).contains(&format!(".expect('{name}');")));
    // Without an expansion there is nothing to cut.
    let name = "a".repeat(30) + "\u{e9}";
    let args = arguments(expr(ExprKind::Other, "1 + 1", &[]), &[name.as_str()]);
    assert_reports(&args, "Keys must be literal, arg, or tuple");
}

#[test]
fn get_wants_three_arguments() {
    let message = "Invalid arguments. Expected \"get!(world, keys, (components,))\"";
    assert_reports(&ExprList { elements: Vec::new(), stable_ptr: 7 }, message);
    let mut two = arguments(expr(ExprKind::Path, "k", &[]), &["Moves"]);
    two.elements.pop();
    assert_reports(&two, message);
    let mut four = arguments(expr(ExprKind::Path, "k", &[]), &["Moves"]);
    four.elements.push(expr(ExprKind::Path, "more", &["more"]));
    assert_reports(&four, message);
}

#[test]
fn get_wants_components() {
    let args = arguments(expr(ExprKind::Path, "k", &[]), &[]);
    assert_reports(&args, "Component types cannot be empty");
    // The components are looked at before the keys.
    let args = arguments(expr(ExprKind::Other, "1 + 1", &[]), &[]);
    assert_reports(&args, "Component types cannot be empty");
}

#[test]
fn get_wants_plain_keys() {
    let args = arguments(expr(ExprKind::Other, "1 + 1", &[]), &["Moves"]);
    assert_reports(&args, "Keys must be literal, arg, or tuple");
}

#[test]
fn expansions_follow_each_other() {
    let one = arguments(expr(ExprKind::Path, "k", &[]), &["Moves"]);
    let two = arguments(expr(ExprKind::Literal, "2", &[]), &["Position"]);
    let wrong = arguments(expr(ExprKind::Other, "1 + 1", &[]), &["Moves"]);
    let mut data = fresh();
    GetMacro.append_macro_code(&mut data, &one);
    GetMacro.append_macro_code(&mut data, &wrong);
    GetMacro.append_macro_code(&mut data, &two);
    assert_eq!(data.result_code, "let x = ".to_string() + &expand(&one) + &expand(&two));
    assert!(data.code_changed);
    assert_eq!(data.diagnostics.len(), 1);
}

#[test]
fn reports_do_not_depend_on_what_came_before() {
    let wrong = arguments(expr(ExprKind::Other, "1 + 1", &[]), &["Moves"]);
    let mut data = fresh();
    GetMacro.append_macro_code(&mut data, &ExprList { elements: Vec::new(), stable_ptr: 3 });
    GetMacro.append_macro_code(&mut data, &wrong);
    assert_eq!(data.result_code, "let x = ");
    assert!(!data.code_changed);
    assert_eq!(data.diagnostics.len(), 2);
    assert_eq!(data.diagnostics[0].stable_ptr, 3);
    assert_eq!(data.diagnostics[1].message, "Keys must be literal, arg, or tuple");
    assert_eq!(data.diagnostics[1].stable_ptr, 7);
}
