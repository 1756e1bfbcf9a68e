//! The `get!` inline macro, which reads components of an entity from a world.
use vstd::prelude::*;
use vstd::utf8::*;

use crate::inline_macro::{
    Expansion, Expr, ExprKind, ExprList, InlineMacroExpanderData, WrappedExprList,
};
use crate::text::{
    can_truncate, cuts_cleanly, join, joined, law_ascii_is_cut_by_characters,
    law_truncated_is_a_fitting_prefix, truncate, truncated, views,
};

verus! {

/// The most bytes that an error message of Cairo, a short string, can have.
pub const CAIRO_ERR_MSG_LEN: usize = 31;

/// `get!(world, keys, (components,))`.
#[derive(Clone, Copy, Debug)]
pub struct GetMacro;

/// The text that names the keys in the code that `get!` expands to; none where the expression
/// cannot name keys.
pub open spec fn keys_text(keys: Expr) -> Option<Seq<char>> {
    match keys.kind {
        ExprKind::Parenthesized | ExprKind::Tuple | ExprKind::Path => Some(keys.text@),
        ExprKind::Literal => Some("("@ + keys.text@ + ")"@),
        ExprKind::Other => None,
    }
}

/// What is said of a component that does not deserialize, before it is cut to size.
pub open spec fn full_message(component: Seq<char>) -> Seq<char> {
    component + " failed to deserialize"@
}

/// What is said of a component that does not deserialize.
pub open spec fn error_message(component: Seq<char>) -> Seq<char> {
    truncated(full_message(component), CAIRO_ERR_MSG_LEN as nat)
}

/// The statements that read one component.
pub open spec fn component_code(
    world: Seq<char>,
    keys: Seq<char>,
    component: Seq<char>,
) -> Seq<char> {
    "\n            let mut __"@ + component + "_raw = "@ + world + ".entity('"@ + component + "', "@
        + component + "KeysTrait::serialize_keys("@ + keys + "), 0_u8, dojo::SerdeLen::<"@
        + component + ">::len());\n                   let __"@ + component
        + " = serde::Serde::<"@ + component + ">::deserialize(\n                       ref __"@
        + component + "_raw\n                   ).expect('"@ + error_message(component) + "');"@
}

/// The statements that read the components, in order.
pub open spec fn statements(
    world: Seq<char>,
    keys: Seq<char>,
    components: Seq<Seq<char>>,
) -> Seq<char>
    decreases components.len(),
{
    if components.len() == 0 {
        Seq::empty()
    } else {
        statements(world, keys, components.drop_last()) + component_code(
            world,
            keys,
            components.last(),
        )
    }
}

/// The names of the variables that hold the components.
pub open spec fn variables(components: Seq<Seq<char>>) -> Seq<Seq<char>> {
    components.map_values(|c: Seq<char>| "__"@ + c)
}

/// The block that `get!` expands to: it reads the components and evaluates to them.
pub open spec fn block(
    world: Seq<char>,
    keys: Seq<char>,
    components: Seq<Seq<char>>,
) -> Seq<char> {
    "{"@ + statements(world, keys, components) + "("@ + joined(variables(components), ","@)
        + ")\n        }"@
}

/// What `get!` makes of its arguments.
pub open spec fn expanded<Ptr>(before: Expansion<Ptr>, arguments: ExprList<Ptr>) -> Expansion<Ptr> {
    let args = arguments.elements@;
    if args.len() != 3 {
        before.report(
            "Invalid arguments. Expected \"get!(world, keys, (components,))\""@,
            arguments.stable_ptr,
        )
    } else if args[2].components@.len() == 0 {
        before.report("Component types cannot be empty"@, arguments.stable_ptr)
    } else {
        match keys_text(args[1]) {
            Some(keys) => before.emit(block(args[0].text@, keys, views(args[2].components@))),
            None => before.report("Keys must be literal, arg, or tuple"@, arguments.stable_ptr),
        }
    }
}

/// Whether the arguments are such that `get!` emits code.
pub open spec fn emits_code<Ptr>(arguments: ExprList<Ptr>) -> bool {
    let args = arguments.elements@;
    args.len() == 3 && args[2].components@.len() > 0 && keys_text(args[1]) is Some
}

/// Whether the error messages of the components can be cut to size between two characters.
pub open spec fn messages_fit(components: Seq<Seq<char>>) -> bool {
    forall|i: int|
        0 <= i < components.len() ==> cuts_cleanly(
            full_message(#[trigger] components[i]),
            CAIRO_ERR_MSG_LEN as nat,
        )
}

/// Names the keys in the code that `get!` expands to.
fn read_keys(keys: &Expr) -> (r: Option<String>)
    ensures
        match r {
            Some(text) => keys_text(*keys) == Some(text@),
            None => keys_text(*keys) is None,
        },
        r is None <==> keys.kind is Other,
        keys.kind is Literal ==> r->0@ == seq!['('] + keys.text@ + seq![')'],
        !(keys.kind is Literal) && r is Some ==> r->0@ == keys.text@,
{
    proof {
        law_keys_are_named_as_written(*keys);
    }
    match keys.kind {
        ExprKind::Parenthesized | ExprKind::Tuple | ExprKind::Path => Some(keys.text.clone()),
        ExprKind::Literal => Some("(".to_string().concat(keys.text.as_str()).concat(")")),
        ExprKind::Other => None,
    }
}

/// Says what a component's failure to deserialize is reported as.
fn make_error_message(component: &str) -> (r: String)
    requires
        cuts_cleanly(full_message(component@), CAIRO_ERR_MSG_LEN as nat),
    ensures
        r@ == error_message(component@),
{
    truncate(
        component.to_string().concat(" failed to deserialize").as_str(),
        CAIRO_ERR_MSG_LEN,
    )
}

/// Writes the statements that read one component.
fn write_component(world: &str, keys: &str, component: &str) -> (r: String)
    requires
        cuts_cleanly(full_message(component@), CAIRO_ERR_MSG_LEN as nat),
    ensures
        r@ == component_code(world@, keys@, component@),
{
    let message = make_error_message(component);
    let mut code = "\n            let mut __".to_string();
    code.append(component);
    code.append("_raw = ");
    code.append(world);
    code.append(".entity('");
    code.append(component);
    code.append("', ");
    code.append(component);
    code.append("KeysTrait::serialize_keys(");
    code.append(keys);
    code.append("), 0_u8, dojo::SerdeLen::<");
    code.append(component);
    code.append(">::len());\n                   let __");
    code.append(component);
    code.append(" = serde::Serde::<");
    code.append(component);
    code.append(">::deserialize(\n                       ref __");
    code.append(component);
    code.append("_raw\n                   ).expect('");
    code.append(message.as_str());
    code.append("');");
    code
}

/// Names the variables that hold the components.
fn name_variables(components: &Vec<String>) -> (r: Vec<String>)
    ensures
        views(r@) == variables(views(components@)),
        r@.len() == components@.len(),
        forall|i: int|
            0 <= i < r@.len() ==> (#[trigger] r@[i])@ == seq!['_', '_'] + components@[i]@,
{
    proof {
        reveal_strlit("__");
        assert("__"@ =~= seq!['_', '_']);
    }
    let mut names: Vec<String> = Vec::new();
    let mut i: usize = 0;
    while i < components.len()
        invariant
            i <= components.len(),
            names.len() == i,
            forall|j: int| 0 <= j < i ==> (#[trigger] names[j])@ == "__"@ + components[j]@,
        decreases components.len() - i,
    {
        names.push("__".to_string().concat(components[i].as_str()));
        i += 1;
    }
    assert(views(names@) =~= variables(views(components@)));
    names
}

/// Writes the block that `get!` expands to.
fn write_block(world: &str, keys: &str, components: &Vec<String>) -> (r: String)
    requires
        messages_fit(views(components@)),
    ensures
        r@ == block(world@, keys@, views(components@)),
{
    let ghost all = views(components@);
    let mut code = "{".to_string();
    let mut i: usize = 0;
    assert(all.take(0) =~= Seq::empty());
    assert(code@ =~= "{"@ + statements(world@, keys@, all.take(0)));
    while i < components.len()
        invariant
            i <= components.len(),
            all == views(components@),
            messages_fit(all),
            code@ == "{"@ + statements(world@, keys@, all.take(i as int)),
        decreases components.len() - i,
    {
        assert(cuts_cleanly(full_message(all[i as int]), CAIRO_ERR_MSG_LEN as nat));
        let part = write_component(world, keys, components[i].as_str());
        code.append(part.as_str());
        i += 1;
        proof {
            assert(all.take(i as int).drop_last() =~= all.take(i - 1));
            assert(code@ =~= "{"@ + statements(world@, keys@, all.take(i as int)));
        }
    }
    assert(all.take(i as int) =~= all);
    let names = name_variables(components);
    code.append("(");
    code.append(join(&names, ",").as_str());
    code.append(")\n        }");
    code
}

impl GetMacro {
    /// Says whether the error messages that the expansion needs can be cut to size between two
    /// characters. Where none is needed they can.
    pub fn can_expand<Ptr>(&self, macro_arguments: &ExprList<Ptr>) -> (r: bool)
        ensures
            r == (emits_code(*macro_arguments) ==> messages_fit(
                views(macro_arguments.elements@[2].components@),
            )),
            r == (macro_arguments.elements@.len() == 3 && !(
            macro_arguments.elements@[1].kind is Other) ==> forall|i: int|
                0 <= i < macro_arguments.elements@[2].components@.len() ==> cuts_cleanly(
                    (#[trigger] macro_arguments.elements@[2].components@[i])@
                        + " failed to deserialize"@,
                    31,
                )),
    {
        proof {
            law_get_wants_three_arguments_and_components(*macro_arguments);
        }
        let args = &macro_arguments.elements;
        if args.len() != 3 || read_keys(&args[1]).is_none() {
            return true;
        }
        let components = &args[2].components;
        let mut i: usize = 0;
        while i < components.len()
            invariant
                i <= components.len(),
                args == &macro_arguments.elements,
                args.len() == 3,
                keys_text(args[1]) is Some,
                components == &args[2].components,
                forall|j: int|
                    0 <= j < i ==> cuts_cleanly(
                        full_message(#[trigger] views(components@)[j]),
                        CAIRO_ERR_MSG_LEN as nat,
                    ),
            decreases components.len() - i,
        {
            let message = components[i].as_str().to_string().concat(" failed to deserialize");
            assert(message@ == full_message(views(components@)[i as int]));
            if !can_truncate(message.as_str(), CAIRO_ERR_MSG_LEN) {
                return false;
            }
            i += 1;
        }
        true
    }

    /// Expands `get!(world, keys, (components,))`, or reports what is wrong with its arguments.
    pub fn append_macro_code<Ptr: Copy>(
        &self,
        macro_expander_data: &mut InlineMacroExpanderData<Ptr>,
        macro_arguments: &ExprList<Ptr>,
    )
        requires
            emits_code(*macro_arguments) ==> messages_fit(
                views(macro_arguments.elements@[2].components@),
            ),
        ensures
            final(macro_expander_data)@ == expanded(old(macro_expander_data)@, *macro_arguments),
            ({
                let before = *old(macro_expander_data);
                let after = *final(macro_expander_data);
                let args = macro_arguments.elements@;
                if args.len() == 3 && args[2].components@.len() > 0 && !(args[1].kind is Other) {
                    &&& after.result_code@ == before.result_code@ + block(
                        args[0].text@,
                        if args[1].kind is Literal {
                            seq!['('] + args[1].text@ + seq![')']
                        } else {
                            args[1].text@
                        },
                        views(args[2].components@),
                    )
                    &&& after.code_changed
                    &&& after.diagnostics == before.diagnostics
                } else {
                    &&& after.result_code == before.result_code
                    &&& after.code_changed == before.code_changed
                    &&& after.diagnostics@.len() == before.diagnostics@.len() + 1
                    &&& after.diagnostics@.drop_last() == before.diagnostics@
                    &&& after.diagnostics@.last().stable_ptr == macro_arguments.stable_ptr
                    &&& after.diagnostics@.last().message@ == if args.len() != 3 {
                        "Invalid arguments. Expected \"get!(world, keys, (components,))\""@
                    } else if args[2].components@.len() == 0 {
                        "Component types cannot be empty"@
                    } else {
                        "Keys must be literal, arg, or tuple"@
                    }
                }
            }),
    {
        let args = &macro_arguments.elements;
        if args.len() != 3 {
            macro_expander_data.report(
                "Invalid arguments. Expected \"get!(world, keys, (components,))\"",
                macro_arguments.stable_ptr,
            );
            return;
        }
        let world = &args[0];
        let keys = &args[1];
        let components = &args[2].components;
        if components.len() == 0 {
            macro_expander_data.report(
                "Component types cannot be empty",
                macro_arguments.stable_ptr,
            );
            return;
        }
        match read_keys(keys) {
            Some(keys) => {
                let code = write_block(world.text.as_str(), keys.as_str(), components);
                macro_expander_data.emit(code.as_str());
            },
            None => {
                macro_expander_data.report(
                    "Keys must be literal, arg, or tuple",
                    macro_arguments.stable_ptr,
                );
            },
        }
    }

    /// `get!` takes its arguments in round brackets only.
    pub fn is_bracket_type_allowed(&self, arguments: WrappedExprList) -> (r: bool)
        ensures
            r == (arguments is ParenthesizedExprList),
    {
        matches!(arguments, WrappedExprList::ParenthesizedExprList)
    }
}

/// Keys that are a path, a tuple or in brackets are named as they are written, a literal is put
/// in round brackets, and nothing else names keys.
pub proof fn law_keys_are_named_as_written(keys: Expr)
    ensures
        keys.kind is Path || keys.kind is Tuple || keys.kind is Parenthesized ==> keys_text(keys)
            == Some(keys.text@),
        keys.kind is Literal ==> keys_text(keys) == Some(seq!['('] + keys.text@ + seq![')']),
        keys.kind is Other ==> keys_text(keys) is None,
{
    reveal_strlit("(");
    reveal_strlit(")");
    assert("("@ =~= seq!['(']);
    assert(")"@ =~= seq![')']);
}

/// The message that a failure to deserialize is reported with is the longest part that fits 31
/// bytes, from the start, of the component's name and the words behind it.
pub proof fn law_error_message_names_the_component(component: Seq<char>)
    requires
        cuts_cleanly(component + " failed to deserialize"@, 31),
    ensures
        full_message(component) == component + " failed to deserialize"@,
        error_message(component).is_prefix_of(component + " failed to deserialize"@),
        encode_utf8(component + " failed to deserialize"@).len() <= 31 ==> error_message(component)
            == component + " failed to deserialize"@,
        encode_utf8(component + " failed to deserialize"@).len() > 31 ==> encode_utf8(
            error_message(component),
        ).len() == 31,
{
    law_truncated_is_a_fitting_prefix(component + " failed to deserialize"@, 31);
}

/// The statements that read a component: its raw value is what the world's `entity` gives for the
/// component's name, the keys and the component's length, and the variable named after the
/// component is that value, deserialized as that component.
pub proof fn law_statements_read_the_component(
    world: Seq<char>,
    keys: Seq<char>,
    component: Seq<char>,
)
    ensures
        ({
            let raw = "__"@ + component + "_raw"@;
            let read = "\n            let mut "@ + raw + " = "@ + world + ".entity('"@ + component
                + "', "@ + (component + "KeysTrait::serialize_keys("@ + keys + ")"@) + ", 0_u8, "@
                + ("dojo::SerdeLen::<"@ + component + ">::len()"@) + ");"@;
            let bind = "\n                   let "@ + ("__"@ + component) + " = "@
                + ("serde::Serde::<"@ + component + ">::deserialize("@)
                + "\n                       ref "@ + raw + "\n                   )"@
                + ".expect('"@ + error_message(component) + "');"@;
            component_code(world, keys, component) == read + bind
        }),
{
    reveal_strlit("__");
    reveal_strlit("_raw");
    reveal_strlit("\n            let mut ");
    reveal_strlit(" = ");
    reveal_strlit(".entity('");
    reveal_strlit("', ");
    reveal_strlit("KeysTrait::serialize_keys(");
    reveal_strlit(")");
    reveal_strlit(", 0_u8, ");
    reveal_strlit("dojo::SerdeLen::<");
    reveal_strlit(">::len()");
    reveal_strlit(");");
    reveal_strlit("\n                   let ");
    reveal_strlit("serde::Serde::<");
    reveal_strlit(">::deserialize(");
    reveal_strlit("\n                       ref ");
    reveal_strlit("\n                   )");
    reveal_strlit(".expect('");
    reveal_strlit("\n            let mut __");
    reveal_strlit("_raw = ");
    reveal_strlit("), 0_u8, dojo::SerdeLen::<");
    reveal_strlit(">::len());\n                   let __");
    reveal_strlit(" = serde::Serde::<");
    reveal_strlit(">::deserialize(\n                       ref __");
    reveal_strlit("_raw\n                   ).expect('");
    assert("\n            let mut __"@ =~= "\n            let mut "@ + "__"@);
    assert("_raw = "@ =~= "_raw"@ + " = "@);
    assert("), 0_u8, dojo::SerdeLen::<"@ =~= ")"@ + ", 0_u8, "@ + "dojo::SerdeLen::<"@);
    assert(">::len());\n                   let __"@ =~= ">::len()"@ + ");"@
        + "\n                   let "@ + "__"@);
    assert(" = serde::Serde::<"@ =~= " = "@ + "serde::Serde::<"@);
    assert(">::deserialize(\n                       ref __"@ =~= ">::deserialize("@
        + "\n                       ref "@ + "__"@);
    assert("_raw\n                   ).expect('"@ =~= "_raw"@ + "\n                   )"@
        + ".expect('"@);
    let raw = "__"@ + component + "_raw"@;
    let read = "\n            let mut "@ + raw + " = "@ + world + ".entity('"@ + component + "', "@ + (
    component + "KeysTrait::serialize_keys("@ + keys + ")"@) + ", 0_u8, "@ + ("dojo::SerdeLen::<"@
        + component + ">::len()"@) + ");"@;
    let bind = "\n                   let "@ + ("__"@ + component) + " = "@ + ("serde::Serde::<"@
        + component + ">::deserialize("@) + "\n                       ref "@ + raw
        + "\n                   )"@ + ".expect('"@ + error_message(component) + "');"@;
    assert(component_code(world, keys, component) =~= read + bind);
}

/// One component is read by its own statements, and no component by none.
pub proof fn law_each_component_has_its_statements(
    world: Seq<char>,
    keys: Seq<char>,
    component: Seq<char>,
)
    ensures
        statements(world, keys, Seq::empty()) == Seq::<char>::empty(),
        statements(world, keys, seq![component]) == component_code(world, keys, component),
{
    reveal_with_fuel(statements, 2);
    assert(seq![component].drop_last() =~= Seq::empty());
    assert(statements(world, keys, seq![component]) =~= component_code(world, keys, component));
}

/// The variables are named after the components, the first after the first and so on.
pub proof fn law_variables_are_in_the_order_of_the_components(components: Seq<Seq<char>>)
    ensures
        variables(components).len() == components.len(),
        forall|i: int|
            0 <= i < components.len() ==> #[trigger] variables(components)[i] == seq!['_', '_']
                + components[i],
{
    reveal_strlit("__");
    assert("__"@ =~= seq!['_', '_']);
}

/// The block evaluates to the variables: behind the statements stand, in round brackets and with
/// a comma between each two, the variables of the components in the components' order.
pub proof fn law_block_evaluates_to_the_components(
    world: Seq<char>,
    keys: Seq<char>,
    components: Seq<Seq<char>>,
    names: Seq<Seq<char>>,
)
    requires
        names.len() == components.len(),
        forall|i: int|
            0 <= i < names.len() ==> #[trigger] names[i] == seq!['_', '_'] + components[i],
    ensures
        block(world, keys, components) == seq!['{'] + statements(world, keys, components) + (
        seq!['('] + joined(names, seq![',']) + seq![')']) + "\n        }"@,
{
    law_variables_are_in_the_order_of_the_components(components);
    assert(names =~= variables(components));
    reveal_strlit("{");
    reveal_strlit("(");
    reveal_strlit(",");
    reveal_strlit(")\n        }");
    reveal_strlit("\n        }");
    assert("{"@ =~= seq!['{']);
    assert("("@ =~= seq!['(']);
    assert(","@ =~= seq![',']);
    assert(")\n        }"@ =~= seq![')'] + "\n        }"@);
    assert(block(world, keys, components) =~= seq!['{'] + statements(world, keys, components) + (
    seq!['('] + joined(names, seq![',']) + seq![')']) + "\n        }"@);
}

/// `get!` emits code where it has a world, keys that are no other expression than a path, a
/// literal, a tuple or one in brackets, and at least one component; its error messages fit where
/// each component's can be cut to 31 bytes.
pub proof fn law_get_wants_three_arguments_and_components<Ptr>(arguments: ExprList<Ptr>)
    ensures
        emits_code(arguments) <==> arguments.elements@.len() == 3
            && arguments.elements@[2].components@.len() > 0 && !(
        arguments.elements@[1].kind is Other),
        arguments.elements@.len() == 3 ==> (messages_fit(views(arguments.elements@[2].components@))
            <==> forall|i: int|
            0 <= i < arguments.elements@[2].components@.len() ==> cuts_cleanly(
                (#[trigger] arguments.elements@[2].components@[i])@ + " failed to deserialize"@,
                31,
            )),
{
    if arguments.elements@.len() == 3 {
        let components = arguments.elements@[2].components@;
        assert(forall|i: int|
            0 <= i < components.len() ==> #[trigger] views(components)[i] == components[i]@);
        if forall|i: int|
            0 <= i < components.len() ==> cuts_cleanly(
                (#[trigger] components[i])@ + " failed to deserialize"@,
                31,
            ) {
            assert(messages_fit(views(components)));
        }
        if messages_fit(views(components)) {
            assert forall|i: int| 0 <= i < components.len() implies cuts_cleanly(
                (#[trigger] components[i])@ + " failed to deserialize"@,
                31,
            ) by {
                assert(cuts_cleanly(full_message(views(components)[i]), 31));
            }
        }
    }
}

/// What `get!` says of wrong arguments: that three are wanted, otherwise that there are no
/// components, otherwise that the keys are of the wrong form.
pub proof fn law_get_says_what_is_wrong<Ptr>(before: Expansion<Ptr>, arguments: ExprList<Ptr>)
    ensures
        ({
            let args = arguments.elements@;
            let said = expanded(before, arguments).diagnostics.last().message;
            &&& args.len() != 3 ==> said
                == "Invalid arguments. Expected \"get!(world, keys, (components,))\""@
            &&& args.len() == 3 && args[2].components@.len() == 0 ==> said
                == "Component types cannot be empty"@
            &&& args.len() == 3 && args[2].components@.len() > 0 && args[1].kind is Other ==> said
                == "Keys must be literal, arg, or tuple"@
        }),
{
}

/// The message that a failure to deserialize is reported with fits a short string of Cairo, and
/// it is the start of the full message.
pub proof fn law_error_message_fits(component: Seq<char>)
    requires
        cuts_cleanly(full_message(component), CAIRO_ERR_MSG_LEN as nat),
    ensures
        encode_utf8(error_message(component)).len() <= CAIRO_ERR_MSG_LEN,
        error_message(component).is_prefix_of(full_message(component)),
{
    law_truncated_is_a_fitting_prefix(full_message(component), CAIRO_ERR_MSG_LEN as nat);
}

/// Components with ASCII names can always be expanded, and their error messages keep the first
/// characters of the full message, as many as fit.
pub proof fn law_ascii_components_expand(components: Seq<Seq<char>>)
    requires
        forall|i: int| 0 <= i < components.len() ==> is_ascii_chars(#[trigger] components[i]),
    ensures
        messages_fit(components),
        forall|i: int|
            0 <= i < components.len() ==> error_message(#[trigger] components[i]) == (if full_message(
                components[i],
            ).len() <= CAIRO_ERR_MSG_LEN {
                full_message(components[i])
            } else {
                full_message(components[i]).take(CAIRO_ERR_MSG_LEN as int)
            }),
{
    assert forall|i: int| 0 <= i < components.len() implies {
        let c = #[trigger] components[i];
        &&& cuts_cleanly(full_message(c), CAIRO_ERR_MSG_LEN as nat)
        &&& error_message(c) == if full_message(c).len() <= CAIRO_ERR_MSG_LEN {
            full_message(c)
        } else {
            full_message(c).take(CAIRO_ERR_MSG_LEN as int)
        }
    } by {
        reveal_strlit(" failed to deserialize");
        assert(is_ascii_chars(" failed to deserialize"@));
        assert(is_ascii_chars(full_message(components[i])));
        law_ascii_is_cut_by_characters(full_message(components[i]), CAIRO_ERR_MSG_LEN as nat);
    }
}

/// The components are read one after the other, each independently of the rest: the statements
/// for two lists of components, one behind the other, are those of the first and then those of
/// the second.
pub proof fn law_statements_follow_the_components(
    world: Seq<char>,
    keys: Seq<char>,
    first: Seq<Seq<char>>,
    second: Seq<Seq<char>>,
)
    ensures
        statements(world, keys, first + second) == statements(world, keys, first) + statements(
            world,
            keys,
            second,
        ),
    decreases second.len(),
{
    if second.len() == 0 {
        assert(first + second =~= first);
        assert(statements(world, keys, first) =~= statements(world, keys, first) + Seq::empty());
    } else {
        law_statements_follow_the_components(world, keys, first, second.drop_last());
        assert((first + second).drop_last() =~= first + second.drop_last());
        assert(statements(world, keys, first + second) =~= statements(world, keys, first)
            + statements(world, keys, second));
    }
}

/// A literal names the same keys as the literal in round brackets: `get!` emits the same code for
/// both, wherever in the source they stand.
pub proof fn law_literal_keys_are_bracketed<Ptr>(
    before: Expansion<Ptr>,
    literal: ExprList<Ptr>,
    bracketed: ExprList<Ptr>,
)
    requires
        literal.elements@.len() == 3,
        bracketed.elements@.len() == 3,
        literal.elements@[0].text@ == bracketed.elements@[0].text@,
        literal.elements@[2].components@.len() > 0,
        views(literal.elements@[2].components@) == views(bracketed.elements@[2].components@),
        literal.elements@[1].kind == ExprKind::Literal,
        bracketed.elements@[1].kind == ExprKind::Parenthesized,
        bracketed.elements@[1].text@ == "("@ + literal.elements@[1].text@ + ")"@,
    ensures
        emits_code(literal),
        emits_code(bracketed),
        expanded(before, literal) == expanded(before, bracketed),
{
    assert(views(literal.elements@[2].components@).len() == literal.elements@[2].components@.len());
    assert(views(bracketed.elements@[2].components@).len()
        == bracketed.elements@[2].components@.len());
}

/// `get!` either emits code or reports one diagnostic, at the place of its arguments, and never
/// does both. What was produced before stays as it was.
pub proof fn law_get_emits_or_reports<Ptr>(before: Expansion<Ptr>, arguments: ExprList<Ptr>)
    ensures
        ({
            let after = expanded(before, arguments);
            if emits_code(arguments) {
                &&& before.result_code.is_prefix_of(after.result_code)
                &&& after.result_code.len() > before.result_code.len()
                &&& after.code_changed
                &&& after.diagnostics == before.diagnostics
            } else {
                &&& after.result_code == before.result_code
                &&& after.code_changed == before.code_changed
                &&& after.diagnostics.len() == before.diagnostics.len() + 1
                &&& before.diagnostics.is_prefix_of(after.diagnostics)
                &&& after.diagnostics.last().stable_ptr == arguments.stable_ptr
            }
        }),
{
    let after = expanded(before, arguments);
    reveal_strlit("{");
    if emits_code(arguments) {
        assert(before.result_code =~= after.result_code.subrange(
            0,
            before.result_code.len() as int,
        ));
    } else {
        assert(before.diagnostics =~= after.diagnostics.subrange(
            0,
            before.diagnostics.len() as int,
        ));
    }
}

/// What `get!` adds, code and diagnostics alike, stands behind what was produced before and does
/// not depend on it.
pub proof fn law_expansions_are_independent<Ptr>(
    before: Expansion<Ptr>,
    other: Expansion<Ptr>,
    arguments: ExprList<Ptr>,
)
    ensures
        ({
            let after = expanded(before, arguments);
            let other_after = expanded(other, arguments);
            &&& before.result_code.is_prefix_of(after.result_code)
            &&& before.diagnostics.is_prefix_of(after.diagnostics)
            &&& after.result_code.skip(before.result_code.len() as int)
                == other_after.result_code.skip(other.result_code.len() as int)
            &&& after.diagnostics.skip(before.diagnostics.len() as int)
                == other_after.diagnostics.skip(other.diagnostics.len() as int)
            &&& after.code_changed == (before.code_changed || emits_code(arguments))
            &&& other_after.code_changed == (other.code_changed || emits_code(arguments))
        }),
{
    let after = expanded(before, arguments);
    let other_after = expanded(other, arguments);
    law_get_emits_or_reports(before, arguments);
    law_get_emits_or_reports(other, arguments);
    assert(before.result_code.is_prefix_of(after.result_code));
    assert(before.diagnostics.is_prefix_of(after.diagnostics));
    if emits_code(arguments) {
        let args = arguments.elements@;
        let code = block(args[0].text@, keys_text(args[1])->0, views(args[2].components@));
        assert(after.result_code.skip(before.result_code.len() as int) =~= code);
        assert(other_after.result_code.skip(other.result_code.len() as int) =~= code);
    } else {
        assert(after.result_code.skip(before.result_code.len() as int) =~= Seq::empty());
        assert(other_after.result_code.skip(other.result_code.len() as int) =~= Seq::empty());
    }
    assert(after.diagnostics.skip(before.diagnostics.len() as int)
        =~= other_after.diagnostics.skip(other.diagnostics.len() as int));
}

} // verus!
