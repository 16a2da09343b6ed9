//! What holds of every expansion.

use crate::error::{ErrorKind, Refusal, Shape};
use crate::input::is_name;
use crate::model::{
    begins_with_group, block, body_of, comma_terminated, describe, expansion, explicit_name,
    field_bind, field_binds, field_decl, field_decls, field_head, leads_with_name, name_of,
    named_declaration, named_value, op, params, parse_fields, refused, shape_of, struct_keyword,
    tuple_declaration, tuple_value, word, Body, Field,
};
use crate::names::{
    decimal_text, lemma_decimal_digits, lemma_decimal_round_trip, name_prefix, param_name,
    struct_name_text, valid_suffix,
};
use crate::syntax::{parsed_expr_prefix, parsed_exprs};
use crate::tokens::{content_of, is_plain_ident, kind_of, Delim, Tok, TokenKind};
use vstd::prelude::*;

verus! {

/// Where item `i` of a comma-terminated list begins: behind the items
/// before it and the comma of each.
pub open spec fn item_offset(items: Seq<Seq<Tok>>, i: int) -> int
    decreases i,
{
    if i <= 0 {
        0
    } else {
        item_offset(items, i - 1) + items[i - 1].len() + 1
    }
}

/// True when `list` holds `item` at `at`, and a comma behind it.
pub open spec fn holds_item(list: Seq<Tok>, at: int, item: Seq<Tok>) -> bool {
    &&& 0 <= at
    &&& at + item.len() < list.len()
    &&& list.subrange(at, at + item.len()) == item
    &&& list[at + item.len()] == op(',')
}

/// Where an item begins depends on the items before it alone.
proof fn lemma_item_offset_prefix(items: Seq<Seq<Tok>>, n: int, i: int)
    requires
        0 <= i <= n <= items.len(),
    ensures
        item_offset(items.take(n), i) == item_offset(items, i),
    decreases i,
{
    if i > 0 {
        lemma_item_offset_prefix(items, n, i - 1);
    }
}

/// A comma-terminated list holds nothing but its items, each in its place
/// and in the order given, with a comma behind each.
pub proof fn lemma_items_in_order(items: Seq<Seq<Tok>>, i: int)
    requires
        0 <= i < items.len(),
    ensures
        comma_terminated(items).len() == item_offset(items, items.len() as int),
        holds_item(comma_terminated(items), item_offset(items, i), items[i]),
    decreases items.len(),
{
    let n = items.len();
    let front = items.drop_last();
    assert(front == items.take(n - 1));
    lemma_item_offset_prefix(items, n - 1, n - 1);
    lemma_list_len(front);
    lemma_item_offset_grows(items, n - 1);
    let list = comma_terminated(items);
    let at = item_offset(items, i);
    if i == n - 1 {
        assert(list.subrange(at, at + items[i].len()) =~= items[i]);
    } else {
        lemma_items_in_order(front, i);
        lemma_item_offset_prefix(items, n - 1, i);
        assert(list.subrange(at, at + items[i].len()) =~= comma_terminated(front).subrange(
            at,
            at + items[i].len(),
        ));
    }
}

/// The length of a comma-terminated list.
proof fn lemma_list_len(items: Seq<Seq<Tok>>)
    ensures
        comma_terminated(items).len() == item_offset(items, items.len() as int),
    decreases items.len(),
{
    if items.len() > 0 {
        let n = items.len();
        assert(items.drop_last() == items.take(n - 1));
        lemma_item_offset_prefix(items, n - 1, n - 1);
        lemma_list_len(items.drop_last());
    }
}

/// No item begins before the list does.
proof fn lemma_item_offset_grows(items: Seq<Seq<Tok>>, i: int)
    ensures
        0 <= item_offset(items, i),
    decreases i,
{
    if i > 0 {
        lemma_item_offset_grows(items, i - 1);
    }
}

/// No token opens with a parenthesis and with a brace at once, so a literal
/// has one shape and no more.
pub proof fn lemma_one_shape(tokens: Seq<Tok>)
    ensures
        !(begins_with_group(body_of(tokens), Delim::Paren) && begins_with_group(
            body_of(tokens),
            Delim::Brace,
        )),
        shape_of(tokens) == Shape::Tuple <==> begins_with_group(body_of(tokens), Delim::Paren),
        shape_of(tokens) == Shape::Named <==> begins_with_group(body_of(tokens), Delim::Brace),
{
}

/// A literal that is read has the shape that its first tokens announce and
/// the name that it begins with, and it has at least one field unless it
/// is a unit.
pub proof fn lemma_read_literals_are_well_formed(tokens: Seq<Tok>)
    ensures
        describe(tokens) matches Ok(literal) ==> {
            &&& literal.wf()
            &&& literal.shape() == shape_of(tokens)
            &&& literal.explicit_name == explicit_name(tokens)
        },
{
}

/// The suffix from the supply touches the made-up name and nothing else:
/// whether a literal is refused, and why, does not depend on it.
pub proof fn lemma_suffix_touches_the_name_only(
    tokens: Seq<Tok>,
    first: Seq<char>,
    second: Seq<char>,
)
    ensures
        expansion(tokens, first) is Ok <==> expansion(tokens, second) is Ok,
        expansion(tokens, first) matches Err(refusal) ==> expansion(tokens, second) == Err::<
            Seq<Tok>,
            Refusal,
        >(refusal),
        expansion(tokens, first) matches Ok(_) ==> describe(tokens) is Ok && expansion(
            tokens,
            first,
        ) == Ok::<Seq<Tok>, Refusal>(describe(tokens)->Ok_0.emitted(first)) && expansion(
            tokens,
            second,
        ) == Ok::<Seq<Tok>, Refusal>(describe(tokens)->Ok_0.emitted(second)),
{
}

/// Whatever the literal, its expansion is one block in braces, which
/// begins with the declaration of a type by the keyword `struct` and the
/// name of the type: the declaration does not reach beyond the expression.
pub proof fn lemma_expansion_is_one_block(tokens: Seq<Tok>, fresh: Seq<char>)
    ensures
        expansion(tokens, fresh) matches Ok(out) ==> {
            &&& out.len() == 1
            &&& kind_of(out[0]) == TokenKind::Group(Delim::Brace)
            &&& content_of(out[0]).len() >= 4
            &&& content_of(out[0])[0] == word(struct_keyword())
            &&& content_of(out[0]).subrange(1, 2) == name_of(tokens, fresh)
        },
{
    if let Ok(out) = expansion(tokens, fresh) {
        assert(content_of(out[0]).subrange(1, 2) =~= name_of(tokens, fresh));
    }
}

/// Two positions have two placeholder names: no two fields share a type
/// parameter.
pub proof fn lemma_param_names_distinct(i: nat, j: nat)
    requires
        i != j,
    ensures
        param_name(i) != param_name(j),
{
    if param_name(i) == param_name(j) {
        assert(param_name(i).skip(1) =~= decimal_text(i));
        assert(param_name(j).skip(1) =~= decimal_text(j));
        lemma_decimal_round_trip(i);
        lemma_decimal_round_trip(j);
    }
}

/// A made-up name is the prefix and eight symbols of the alphabet, fifteen
/// characters in all, and a legal identifier.
pub proof fn lemma_made_up_name(suffix: Seq<char>)
    requires
        valid_suffix(suffix),
    ensures
        struct_name_text(suffix).len() == 15,
        struct_name_text(suffix).subrange(0, 7) == name_prefix(),
        struct_name_text(suffix).subrange(7, 15) == suffix,
        is_plain_ident(struct_name_text(suffix)),
{
    assert(struct_name_text(suffix).subrange(0, 7) =~= name_prefix());
    assert(struct_name_text(suffix).subrange(7, 15) =~= suffix);
}

/// A placeholder name is a legal identifier.
pub proof fn lemma_param_name_is_ident(i: nat)
    ensures
        is_plain_ident(param_name(i)),
{
    lemma_decimal_digits(i);
}

/// Name uniqueness, as far as it is no matter of chance: two suffixes
/// give two made-up names.
pub proof fn lemma_suffixes_tell_names_apart(first: Seq<char>, second: Seq<char>)
    requires
        first != second,
    ensures
        struct_name_text(first) != struct_name_text(second),
{
    if struct_name_text(first) == struct_name_text(second) {
        assert(struct_name_text(first).skip(name_prefix().len() as int) =~= first);
        assert(struct_name_text(second).skip(name_prefix().len() as int) =~= second);
    }
}

/// Explicit naming: a literal that begins with a name expands, if it
/// expands, to a block that declares a type of that very name, whatever
/// name the supply would have made up.
pub proof fn lemma_explicit_name(tokens: Seq<Tok>, fresh: Seq<char>, other: Seq<char>)
    requires
        leads_with_name(tokens),
    ensures
        expansion(tokens, fresh) == expansion(tokens, other),
        expansion(tokens, fresh) matches Ok(out) ==> out.len() == 1 && content_of(out[0]).len() >= 2
            && content_of(out[0])[0] == word(struct_keyword()) && content_of(out[0])[1]
            == tokens[0],
{
}

/// Empty-argument rejection: parentheses or braces with nothing between
/// them are refused, with or without a name before them and whatever
/// follows them: the parentheses where they stand, the braces at the call
/// site.
pub proof fn lemma_empty_arguments_rejected(tokens: Seq<Tok>, fresh: Seq<char>)
    requires
        body_of(tokens).len() > 0,
        body_of(tokens)[0] is Group,
        content_of(body_of(tokens)[0]).len() == 0,
    ensures
        begins_with_group(body_of(tokens), Delim::Paren) ==> expansion(tokens, fresh) == refused::<
            Seq<Tok>,
        >(ErrorKind::EmptyArguments(Shape::Tuple), seq![body_of(tokens)[0]]),
        begins_with_group(body_of(tokens), Delim::Brace) ==> expansion(tokens, fresh) == refused::<
            Seq<Tok>,
        >(ErrorKind::EmptyArguments(Shape::Named), Seq::empty()),
{
}

/// The fields read from a list have one token for a name each, and that
/// token can name a field.
pub proof fn lemma_fields_are_named(tokens: Seq<Tok>, i: int)
    requires
        parse_fields(tokens) is Ok,
        0 <= i < parse_fields(tokens)->Ok_0.len(),
    ensures
        parse_fields(tokens)->Ok_0[i].name.len() == 1,
        is_name(parse_fields(tokens)->Ok_0[i].name[0]),
    decreases tokens.len(),
{
    let (field, rest) = field_head(tokens)->Ok_0;
    if i > 0 {
        lemma_fields_are_named(rest.skip(1), i - 1);
    }
}

/// Shape round trip, as far as tokens go: a tuple literal of `N`
/// expressions expands to a type with the `N` parameters `T0` to `T(N-1)`,
/// whose field at each position has the parameter of that position for a
/// type, and to a value that holds the expressions at their positions, in
/// the order in which they were written.
pub proof fn lemma_tuple_round_trip(
    tokens: Seq<Tok>,
    fresh: Seq<char>,
    exprs: Seq<Seq<Tok>>,
    i: int,
)
    requires
        begins_with_group(body_of(tokens), Delim::Paren),
        body_of(tokens).len() == 1,
        content_of(body_of(tokens)[0]).len() > 0,
        parsed_exprs(content_of(body_of(tokens)[0])) == Some(exprs),
        0 <= i < exprs.len(),
    ensures
        expansion(tokens, fresh) == Ok::<Seq<Tok>, Refusal>(
            block(
                tuple_declaration(name_of(tokens, fresh), exprs.len()),
                tuple_value(name_of(tokens, fresh), exprs),
            ),
        ),
        comma_terminated(params(exprs.len())).len() == 2 * exprs.len(),
        holds_item(
            comma_terminated(params(exprs.len())),
            2 * i,
            seq![word(param_name(i as nat))],
        ),
        holds_item(comma_terminated(exprs), item_offset(exprs, i), exprs[i]),
{
    lemma_params_layout(exprs.len(), i);
    lemma_items_in_order(exprs, i);
}

/// The list of `n` placeholders holds `T0` to `T(n-1)`, each in its place.
pub proof fn lemma_params_layout(n: nat, i: int)
    requires
        0 <= i < n,
    ensures
        comma_terminated(params(n)).len() == 2 * n,
        holds_item(comma_terminated(params(n)), 2 * i, seq![word(param_name(i as nat))]),
{
    lemma_params_offset(n, n as int);
    lemma_params_offset(n, i);
    lemma_items_in_order(params(n), i);
}

/// Each placeholder takes two places of the list: its name and its comma.
proof fn lemma_params_offset(n: nat, i: int)
    requires
        0 <= i <= n,
    ensures
        item_offset(params(n), i) == 2 * i,
    decreases i,
{
    if i > 0 {
        lemma_params_offset(n, i - 1);
    }
}

/// Named round trip, as far as tokens go: a named literal expands to a
/// type with one parameter for each field, whose field of each name has
/// the parameter of its position for a type, and to a value that binds each
/// name to the expression written for it, or to the variable of that name
/// where none was written, in the order of the literal.
pub proof fn lemma_named_round_trip(
    tokens: Seq<Tok>,
    fresh: Seq<char>,
    fields: Seq<Field>,
    i: int,
)
    requires
        begins_with_group(body_of(tokens), Delim::Brace),
        body_of(tokens).len() == 1,
        parse_fields(content_of(body_of(tokens)[0])) == Ok::<Seq<Field>, Refusal>(fields),
        0 <= i < fields.len(),
    ensures
        expansion(tokens, fresh) == Ok::<Seq<Tok>, Refusal>(
            block(
                named_declaration(name_of(tokens, fresh), fields),
                named_value(name_of(tokens, fresh), fields),
            ),
        ),
        fields[i].name.len() == 1,
        is_name(fields[i].name[0]),
        holds_item(
            comma_terminated(params(fields.len())),
            2 * i,
            seq![word(param_name(i as nat))],
        ),
        holds_item(
            comma_terminated(field_decls(fields)),
            4 * i,
            seq![fields[i].name[0], op(':'), word(param_name(i as nat))],
        ),
        holds_item(
            comma_terminated(field_binds(fields)),
            item_offset(field_binds(fields), i),
            match fields[i].value {
                Some(expr) => seq![fields[i].name[0], op(':')] + expr,
                None => seq![fields[i].name[0]],
            },
        ),
{
    let content = content_of(body_of(tokens)[0]);
    lemma_fields_are_named(content, i);
    lemma_params_layout(fields.len(), i);
    lemma_items_in_order(field_binds(fields), i);
    lemma_items_in_order(field_decls(fields), i);
    lemma_field_decls_offset(content, i);
    assert(fields[i].name =~= seq![fields[i].name[0]]);
    assert(field_decl(fields[i], i as nat) =~= seq![
        fields[i].name[0],
        op(':'),
        word(param_name(i as nat)),
    ]);
    assert(field_bind(fields[i]) =~= match fields[i].value {
        Some(expr) => seq![fields[i].name[0], op(':')] + expr,
        None => seq![fields[i].name[0]],
    });
}

/// Each declaration of a field that was read from a list takes four
/// places: its name, the colon, its type and its comma.
proof fn lemma_field_decls_offset(tokens: Seq<Tok>, i: int)
    requires
        parse_fields(tokens) is Ok,
        0 <= i <= parse_fields(tokens)->Ok_0.len(),
    ensures
        item_offset(field_decls(parse_fields(tokens)->Ok_0), i) == 4 * i,
    decreases i,
{
    if i > 0 {
        lemma_field_decls_offset(tokens, i - 1);
        lemma_fields_are_named(tokens, i - 1);
    }
}

/// The declaration of a type goes by the names of the fields alone: two
/// lists of fields with the same names in the same order declare the same
/// type, whatever the expressions of the fields.
pub proof fn lemma_declaration_is_by_names(name: Seq<Tok>, first: Seq<Field>, second: Seq<Field>)
    requires
        first.len() == second.len(),
        forall|i: int| 0 <= i < first.len() ==> first[i].name == second[i].name,
    ensures
        named_declaration(name, first) == named_declaration(name, second),
{
    assert(field_decls(first) =~= field_decls(second));
}

/// Shorthand equivalence, as far as tokens go. A field that is written as
/// a name alone is always read, and it binds the name to the variable of
/// that name. The field that is written as the name, a colon and the name
/// once more is read with that name whenever it is read, and it is refused
/// where the parser of expressions refuses the name. Where that parser
/// reads the name as the expression `expr` and leaves nothing, the field
/// declares the same type as the name alone, and it binds the name to
/// `expr`, which is the name once more where the parser prints a name as
/// it stands.
pub proof fn lemma_shorthand_equivalence(x: Tok, colon: Tok, expr: Seq<Tok>, fresh: Seq<char>)
    requires
        is_name(x),
        kind_of(colon) == TokenKind::Punct(':'),
    ensures
        ({
            let short_literal = seq![Tok::Group(Delim::Brace, seq![x])];
            let long_literal = seq![Tok::Group(Delim::Brace, seq![x, colon, x])];
            let short = Field { name: seq![x], value: None };
            let name = name_of(short_literal, fresh);
            &&& name == name_of(long_literal, fresh)
            &&& expansion(short_literal, fresh) == Ok::<Seq<Tok>, Refusal>(
                block(named_declaration(name, seq![short]), named_value(name, seq![short])),
            )
            &&& field_bind(short) == seq![x]
            &&& describe(long_literal) matches Ok(literal) ==> literal.shape() == Shape::Named
                && literal.arity() >= 1 && (literal.body matches Body::Named(fields)
                && fields[0].name == seq![x] && fields[0].value is Some)
            &&& parsed_expr_prefix(seq![x]) is None ==> expansion(long_literal, fresh) == refused::<
                Seq<Tok>,
            >(ErrorKind::InvalidExpression, Seq::empty())
            &&& parsed_expr_prefix(seq![x]) == Some((expr, Seq::<Tok>::empty())) ==> {
                let long = Field { name: seq![x], value: Some(expr) };
                &&& named_declaration(name, seq![long]) == named_declaration(name, seq![short])
                &&& expansion(long_literal, fresh) == Ok::<Seq<Tok>, Refusal>(
                    block(named_declaration(name, seq![long]), named_value(name, seq![long])),
                )
                &&& field_bind(long) == seq![x, op(':')] + expr
            }
        }),
{
    let short = Field { name: seq![x], value: None };
    let first = seq![x];
    let second = seq![x, colon, x];
    let one = seq![Tok::Group(Delim::Brace, first)];
    let two = seq![Tok::Group(Delim::Brace, second)];
    let name = name_of(one, fresh);
    assert(first.skip(1) =~= Seq::<Tok>::empty());
    assert(second.skip(2) =~= seq![x]);
    assert(field_head(first) == Ok::<(Field, Seq<Tok>), Refusal>((short, Seq::empty())));
    assert(parse_fields(first) == Ok::<Seq<Field>, Refusal>(seq![short]));
    assert(!leads_with_name(one));
    assert(!leads_with_name(two));
    assert(body_of(one) =~= one);
    assert(body_of(two) =~= two);
    assert(name_of(one, fresh) == name_of(two, fresh));
    if let Ok(fields) = parse_fields(second) {
        let (field, rest) = field_head(second)->Ok_0;
        assert(field.name == seq![x]);
        assert(fields[0] == field);
    }
    if parsed_expr_prefix(seq![x]) == Some((expr, Seq::<Tok>::empty())) {
        let long = Field { name: seq![x], value: Some(expr) };
        assert(field_head(second) == Ok::<(Field, Seq<Tok>), Refusal>((long, Seq::empty())));
        assert(parse_fields(second) == Ok::<Seq<Field>, Refusal>(seq![long]));
        lemma_declaration_is_by_names(name, seq![long], seq![short]);
    }
}

} // verus!
