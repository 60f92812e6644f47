//! Address comments stand on lines of their own.
use super::ir::{
    IRBinOpKind, IRExpr, InstModel, IntegerType, LoopCondition, LoopId, StructModel,
    SyntheticFunctionId, VariableId, VariableType,
};
use super::render::{
    address_text, arguments_text, bare_text, binding, body_text, element_text,
    function_name_text, instruction_text, instructions_text, integer_type_of,
    is_plain_widening, is_pointer_address, label_text, operand_text, operator_text,
    pointee_text, shown, slot_text, struct_field_of, type_text, variable_name_text, TypesModel,
};
use crate::text::{decimal, digits, hex};
use vstd::prelude::*;

verus! {

// ---------------------------------------------------------------------------
// Lines

/// Whether a character is white space.
pub open spec fn is_blank(c: char) -> bool {
    let code = c as u32;
    9 <= code <= 13 || code == 0x20 || code == 0x85 || code == 0xa0 || code == 0x1680 || 0x2000
        <= code <= 0x200a || code == 0x2028 || code == 0x2029 || code == 0x202f || code == 0x205f
        || code == 0x3000
}

/// Whether the first line is a comment: two slashes follow its leading white space.
pub open spec fn starts_comment(text: Seq<char>) -> bool
    decreases text.len(),
{
    if text.len() == 0 || text[0] == '\n' {
        false
    } else if is_blank(text[0]) {
        starts_comment(text.subrange(1, text.len() as int))
    } else {
        text[0] == '/' && text.len() > 1 && text[1] == '/'
    }
}

/// The length of the first line, with its end.
pub open spec fn line_length(text: Seq<char>) -> nat
    decreases text.len(),
{
    if text.len() == 0 {
        0
    } else if text[0] == '\n' {
        1
    } else {
        1 + line_length(text.subrange(1, text.len() as int))
    }
}

/// A line is not empty, and lies within its text.
pub proof fn lemma_line_length(text: Seq<char>)
    ensures
        line_length(text) <= text.len(),
        text.len() > 0 ==> line_length(text) > 0,
    decreases text.len(),
{
    if text.len() > 0 {
        lemma_line_length(text.subrange(1, text.len() as int));
    }
}

/// The text from the second line on.
pub open spec fn later_lines(text: Seq<char>) -> Seq<char> {
    text.subrange(line_length(text) as int, text.len() as int)
}

/// The text without the lines that are comments.
pub open spec fn without_comments(text: Seq<char>) -> Seq<char>
    decreases text.len(),
{
    if text.len() == 0 {
        text
    } else {
        proof {
            lemma_line_length(text);
        }
        let first = if starts_comment(text) {
            Seq::empty()
        } else {
            text.subrange(0, line_length(text) as int)
        };
        first + without_comments(later_lines(text))
    }
}

/// Whether no line is a comment.
pub open spec fn is_free(text: Seq<char>) -> bool
    decreases text.len(),
{
    if text.len() == 0 {
        true
    } else {
        proof {
            lemma_line_length(text);
        }
        !starts_comment(text) && is_free(later_lines(text))
    }
}

/// Whether no line but the first is a comment.
pub open spec fn is_tame(text: Seq<char>) -> bool {
    is_free(later_lines(text))
}

spec fn is_complete(text: Seq<char>) -> bool {
    text.len() == 0 || text.last() == '\n'
}

spec fn lacks_slash(text: Seq<char>) -> bool {
    forall|i: int| 0 <= i < text.len() ==> #[trigger] text[i] != '/'
}

/// Whether the text is part of one line, without a slash.
spec fn is_plain(text: Seq<char>) -> bool {
    forall|i: int| 0 <= i < text.len() ==> #[trigger] text[i] != '/' && text[i] != '\n'
}

/// Whether the text begins a line with something that is not a comment.
spec fn is_begun(text: Seq<char>) -> bool {
    is_plain(text) && exists|i: int| 0 <= i < text.len() && !is_blank(#[trigger] text[i])
}

proof fn lemma_line_goes_on(first: Seq<char>, second: Seq<char>)
    ensures
        first.contains('\n') ==> line_length(first + second) == line_length(first)
            && starts_comment(first + second) == starts_comment(first),
        !first.contains('\n') ==> line_length(first + second) == first.len() + line_length(second)
            && line_length(first) == first.len(),
    decreases first.len(),
{
    let all = first + second;
    if first.len() == 0 {
        assert(all =~= second);
    } else if first[0] == '\n' {
        assert(first.contains('\n'));
    } else {
        let rest = first.subrange(1, first.len() as int);
        assert(all.subrange(1, all.len() as int) =~= rest + second);
        lemma_line_goes_on(rest, second);
        if first.contains('\n') {
            let k = choose|k: int| 0 <= k < first.len() && first[k] == '\n';
            assert(rest[k - 1] == '\n');
            assert(rest.contains('\n'));
        } else {
            assert(!rest.contains('\n')) by {
                if rest.contains('\n') {
                    let k = choose|k: int| 0 <= k < rest.len() && rest[k] == '\n';
                    assert(first[k + 1] == '\n');
                }
            }
        }
    }
}

proof fn lemma_complete_has_end(text: Seq<char>)
    requires
        is_complete(text),
        text.len() > 0,
    ensures
        text.contains('\n'),
        is_complete(later_lines(text)),
{
    assert(text[text.len() - 1] == '\n');
    lemma_line_length(text);
}

proof fn lemma_joined(first: Seq<char>, second: Seq<char>)
    requires
        is_complete(first),
    ensures
        without_comments(first + second) == without_comments(first) + without_comments(second),
        is_free(first + second) == (is_free(first) && is_free(second)),
    decreases first.len(),
{
    let all = first + second;
    if first.len() == 0 {
        assert(all =~= second);
        assert(without_comments(first) + without_comments(second) =~= without_comments(second));
    } else {
        lemma_complete_has_end(first);
        lemma_line_length(first);
        lemma_line_goes_on(first, second);
        let n = line_length(first) as int;
        let rest = later_lines(first);
        assert(later_lines(all) =~= rest + second);
        assert(all.subrange(0, n) =~= first.subrange(0, n));
        lemma_joined(rest, second);
        let line = if starts_comment(first) {
            Seq::empty()
        } else {
            first.subrange(0, n)
        };
        assert(line + (without_comments(rest) + without_comments(second)) =~= line
            + without_comments(rest) + without_comments(second));
    }
}

proof fn lemma_free_stays(text: Seq<char>)
    requires
        is_free(text),
    ensures
        without_comments(text) == text,
    decreases text.len(),
{
    if text.len() > 0 {
        lemma_line_length(text);
        lemma_free_stays(later_lines(text));
        assert(text.subrange(0, line_length(text) as int) + later_lines(text) =~= text);
    }
}

proof fn lemma_no_slash_no_comment(text: Seq<char>)
    requires
        lacks_slash(text),
    ensures
        !starts_comment(text),
    decreases text.len(),
{
    if text.len() > 0 && text[0] != '\n' && is_blank(text[0]) {
        let rest = text.subrange(1, text.len() as int);
        assert forall|i: int| 0 <= i < rest.len() implies #[trigger] rest[i] != '/' by {
            assert(rest[i] == text[i + 1]);
        }
        lemma_no_slash_no_comment(rest);
    }
}

proof fn lemma_no_slash_is_free(text: Seq<char>)
    requires
        lacks_slash(text),
    ensures
        is_free(text),
    decreases text.len(),
{
    if text.len() > 0 {
        lemma_line_length(text);
        lemma_no_slash_no_comment(text);
        let rest = later_lines(text);
        assert forall|i: int| 0 <= i < rest.len() implies #[trigger] rest[i] != '/' by {
            assert(rest[i] == text[i + line_length(text)]);
        }
        lemma_no_slash_is_free(rest);
    }
}

proof fn lemma_no_comment_goes_on(first: Seq<char>, second: Seq<char>)
    requires
        !starts_comment(first),
        lacks_slash(second),
    ensures
        !starts_comment(first + second),
    decreases first.len(),
{
    let all = first + second;
    if first.len() == 0 {
        assert(all =~= second);
        lemma_no_slash_no_comment(second);
    } else if first[0] != '\n' && is_blank(first[0]) {
        let rest = first.subrange(1, first.len() as int);
        assert(all.subrange(1, all.len() as int) =~= rest + second);
        lemma_no_comment_goes_on(rest, second);
    } else if first.len() == 1 && second.len() > 0 {
        assert(all[1] == second[0]);
    }
}

/// What has no slash makes no line a comment.
proof fn lemma_free_goes_on(first: Seq<char>, second: Seq<char>)
    requires
        is_free(first),
        lacks_slash(second),
    ensures
        is_free(first + second),
    decreases first.len(),
{
    let all = first + second;
    if first.len() == 0 {
        assert(all =~= second);
        lemma_no_slash_is_free(second);
    } else {
        lemma_line_length(first);
        lemma_line_goes_on(first, second);
        lemma_no_comment_goes_on(first, second);
        if first.contains('\n') {
            assert(later_lines(all) =~= later_lines(first) + second);
            lemma_free_goes_on(later_lines(first), second);
        } else {
            lemma_line_length(second);
            let rest = later_lines(second);
            assert(later_lines(all) =~= rest);
            assert forall|i: int| 0 <= i < rest.len() implies #[trigger] rest[i] != '/' by {
                assert(rest[i] == second[i + line_length(second)]);
            }
            lemma_no_slash_is_free(rest);
        }
    }
}

proof fn lemma_begun_is_no_comment(first: Seq<char>, second: Seq<char>)
    requires
        is_begun(first),
    ensures
        !starts_comment(first + second),
    decreases first.len(),
{
    let all = first + second;
    assert(first[0] != '/' && first[0] != '\n');
    if is_blank(first[0]) {
        let rest = first.subrange(1, first.len() as int);
        assert(all.subrange(1, all.len() as int) =~= rest + second);
        assert forall|i: int| 0 <= i < rest.len() implies #[trigger] rest[i] != '/' && rest[i]
            != '\n' by {
            assert(rest[i] == first[i + 1]);
        }
        let k = choose|i: int| 0 <= i < first.len() && !is_blank(#[trigger] first[i]);
        assert(!is_blank(rest[k - 1]));
        lemma_begun_is_no_comment(rest, second);
    }
}

proof fn lemma_begun_is_free(first: Seq<char>, second: Seq<char>)
    requires
        is_begun(first),
        is_tame(second),
    ensures
        is_free(first + second),
{
    lemma_begun_is_no_comment(first, second);
    lemma_line_goes_on(first, second);
    lemma_line_length(second);
    assert(!first.contains('\n'));
    assert(later_lines(first + second) =~= later_lines(second));
}

/// Whether the first text is the second with lines added that are comments.
#[verifier::opaque]
spec fn shows(noted: Seq<char>, bare: Seq<char>) -> bool {
    &&& is_complete(noted)
    &&& is_complete(bare)
    &&& without_comments(noted) == bare
    &&& is_free(bare)
}

proof fn lemma_shows_joined(
    noted: Seq<char>,
    bare: Seq<char>,
    more_noted: Seq<char>,
    more_bare: Seq<char>,
)
    requires
        shows(noted, bare),
        shows(more_noted, more_bare),
    ensures
        shows(noted + more_noted, bare + more_bare),
{
    reveal(shows);
    lemma_joined(noted, more_noted);
    lemma_joined(bare, more_bare);
}

proof fn lemma_shows_itself(line: Seq<char>)
    requires
        is_free(line),
        is_complete(line),
    ensures
        shows(line, line),
{
    reveal(shows);
    lemma_free_stays(line);
}

proof fn lemma_shows_nothing()
    ensures
        shows(Seq::empty(), Seq::empty()),
{
    reveal(shows);
}

// ---------------------------------------------------------------------------
// Expressions

/// Whether the text ends a line, without a slash.
spec fn is_ending(text: Seq<char>) -> bool {
    text.len() > 0 && text.last() == '\n' && lacks_slash(text)
}

proof fn lemma_names_are_plain()
    ensures
        is_plain("fn_"@),
        is_plain("v"@),
        is_plain("Unknown"@),
        is_plain("Unknown*"@),
        is_plain("*"@),
        is_plain("vec<"@),
        is_plain(">"@),
        is_plain("cstring"@),
        is_plain("AStruct"@),
        is_plain("Bool"@),
        is_plain("i"@),
        is_plain("u"@),
{
    reveal_strlit("fn_");
    reveal_strlit("v");
    reveal_strlit("Unknown");
    reveal_strlit("Unknown*");
    reveal_strlit("*");
    reveal_strlit("vec<");
    reveal_strlit(">");
    reveal_strlit("cstring");
    reveal_strlit("AStruct");
    reveal_strlit("Bool");
    reveal_strlit("i");
    reveal_strlit("u");
}

proof fn lemma_operators_are_plain()
    ensures
        is_plain("+"@),
        is_plain("-"@),
        is_plain("u%"@),
        is_plain("<<"@),
        is_plain(">>>"@),
        is_plain("|"@),
        is_plain("&"@),
        is_plain("&&"@),
        is_plain("||"@),
        is_plain("==="@),
        is_plain("<="@),
        is_plain("!=="@),
        is_plain("u<"@),
        is_plain("u>="@),
        is_plain("*"@),
        is_plain(">"@),
{
    reveal_strlit("+");
    reveal_strlit("-");
    reveal_strlit("u%");
    reveal_strlit("<<");
    reveal_strlit(">>>");
    reveal_strlit("|");
    reveal_strlit("&");
    reveal_strlit("&&");
    reveal_strlit("||");
    reveal_strlit("===");
    reveal_strlit("<=");
    reveal_strlit("!==");
    reveal_strlit("u<");
    reveal_strlit("u>=");
    reveal_strlit("*");
    reveal_strlit(">");
}

proof fn lemma_brackets_are_plain()
    ensures
        is_plain("["@),
        is_plain("]"@),
        is_plain("->_0x"@),
        is_plain("*("@),
        is_plain(")"@),
        is_plain("arg"@),
        is_plain("("@),
        is_plain(" "@),
        is_plain("strlen("@),
        is_plain("(Unknown*)("@),
        is_plain("))"@),
        is_plain("0x"@),
        is_plain("data_0x"@),
        is_plain("true"@),
        is_plain("false"@),
        is_plain("!"@),
        is_plain(", "@),
        is_plain("&"@),
{
    reveal_strlit("[");
    reveal_strlit("]");
    reveal_strlit("->_0x");
    reveal_strlit("*(");
    reveal_strlit(")");
    reveal_strlit("arg");
    reveal_strlit("(");
    reveal_strlit(" ");
    reveal_strlit("strlen(");
    reveal_strlit("(Unknown*)(");
    reveal_strlit("))");
    reveal_strlit("0x");
    reveal_strlit("data_0x");
    reveal_strlit("true");
    reveal_strlit("false");
    reveal_strlit("!");
    reveal_strlit(", ");
    reveal_strlit("&");
}

proof fn lemma_words_are_plain()
    ensures
        is_plain(" = "@),
        is_plain("= "@),
        is_plain("return "@),
        is_plain("let "@),
        is_plain(": "@),
        is_plain("if ("@),
        is_plain("while ("@),
        is_plain("} while ("@),
        is_plain("for "@),
        is_plain(" in "@),
        is_plain("continue loop_"@),
        is_plain("jump("@),
        is_plain("loop_"@),
        is_plain("    "@),
{
    reveal_strlit(" = ");
    reveal_strlit("= ");
    reveal_strlit("return ");
    reveal_strlit("let ");
    reveal_strlit(": ");
    reveal_strlit("if (");
    reveal_strlit("while (");
    reveal_strlit("} while (");
    reveal_strlit("for ");
    reveal_strlit(" in ");
    reveal_strlit("continue loop_");
    reveal_strlit("jump(");
    reveal_strlit("loop_");
    reveal_strlit("    ");
}

proof fn lemma_ends_are_lines()
    ensures
        is_ending(";\n"@),
        is_ending("return;\n"@),
        is_ending(") {\n"@),
        is_ending("} else {\n"@),
        is_ending("}\n"@),
        is_ending("do {\n"@),
        is_ending(");\n"@),
        is_ending("..] {\n"@),
        is_ending("continue;\n"@),
        is_ending("break;\n"@),
        is_ending("end();\n"@),
{
    reveal_strlit(";\n");
    reveal_strlit("return;\n");
    reveal_strlit(") {\n");
    reveal_strlit("} else {\n");
    reveal_strlit("}\n");
    reveal_strlit("do {\n");
    reveal_strlit(");\n");
    reveal_strlit("..] {\n");
    reveal_strlit("continue;\n");
    reveal_strlit("break;\n");
    reveal_strlit("end();\n");
}

proof fn lemma_digits_are_plain(n: nat, base: nat)
    ensures
        is_plain(digits(n, base)),
    decreases n,
{
    if base >= 2 && n >= base {
        assert(n / base < n) by (nonlinear_arith)
            requires
                n >= base,
                base >= 2,
        ;
        lemma_digits_are_plain(n / base, base);
    }
}

proof fn lemma_operator_is_plain(kind: IRBinOpKind)
    ensures
        is_plain(operator_text(kind)),
{
    lemma_operators_are_plain();
}

/// What is shown after a text comes after any text that ends with it.
proof fn lemma_slot(front: Seq<char>, middle: Seq<char>, slot: IRExpr)
    ensures
        slot_text(front + middle, slot) == front + slot_text(middle, slot),
        is_plain(middle) ==> is_plain(slot_text(middle, slot)),
{
    lemma_names_are_plain();
    lemma_brackets_are_plain();
    match slot {
        IRExpr::Argument(ordinal) => {
            lemma_digits_are_plain(ordinal as nat, 10);
            assert(slot_text(front + middle, slot) =~= front + slot_text(middle, slot));
        },
        IRExpr::Variable(variable) => {
            lemma_variable(front, middle, variable);
        },
        _ => {},
    }
}

proof fn lemma_variable(front: Seq<char>, middle: Seq<char>, variable: VariableId)
    ensures
        variable_name_text(front + middle, variable) == front + variable_name_text(
            middle,
            variable,
        ),
        is_plain(middle) ==> is_plain(variable_name_text(middle, variable)),
{
    lemma_names_are_plain();
    lemma_digits_are_plain(variable.id as nat, 10);
    assert(variable_name_text(front + middle, variable) =~= front + variable_name_text(
        middle,
        variable,
    ));
}

proof fn lemma_integer_name(ty: IntegerType)
    ensures
        is_plain(ty.name_text()),
{
    lemma_names_are_plain();
    lemma_digits_are_plain(ty.size as nat * 8, 10);
}

proof fn lemma_element(front: Seq<char>, middle: Seq<char>, address: IRExpr, types: TypesModel)
    ensures
        element_text(front + middle, address, types) == front + element_text(
            middle,
            address,
            types,
        ),
        is_plain(middle) ==> is_plain(element_text(middle, address, types)),
    decreases address, 1nat,
{
    lemma_brackets_are_plain();
    match address {
        IRExpr::ElementAddress { base, index, .. } => {
            lemma_shown(front, middle, *base, 10, types);
            let based = shown(middle, *base, 10, types) + "["@;
            assert(shown(front + middle, *base, 10, types) + "["@ =~= front + based);
            let inner = match *index {
                IRExpr::Convert { value, .. } => if is_plain_widening(types, *index) {
                    *value
                } else {
                    *index
                },
                _ => *index,
            };
            lemma_shown(front, based, inner, 0, types);
            assert(element_text(middle, address, types) == shown(based, inner, 0, types) + "]"@);
            assert(element_text(front + middle, address, types) =~= front + element_text(
                middle,
                address,
                types,
            ));
        },
        _ => {},
    }
}

proof fn lemma_pointee(front: Seq<char>, middle: Seq<char>, address: IRExpr, types: TypesModel)
    ensures
        pointee_text(front + middle, address, types) == front + pointee_text(
            middle,
            address,
            types,
        ),
        is_plain(middle) ==> is_plain(pointee_text(middle, address, types)),
    decreases address, 4nat,
{
    lemma_brackets_are_plain();
    if address is ElementAddress {
        lemma_element(front, middle, address, types);
    } else {
        match struct_field_of(types, address) {
            Some((base, offset)) => {
                lemma_slot(front, middle, base);
                lemma_digits_are_plain(offset as nat, 16);
            },
            None => {
                let opened = middle + "*("@;
                assert((front + middle) + "*("@ =~= front + opened);
                lemma_shown(front, opened, address, 0, types);
            },
        }
        assert(pointee_text(front + middle, address, types) =~= front + pointee_text(
            middle,
            address,
            types,
        ));
    }
}

proof fn lemma_operand(
    front: Seq<char>,
    middle: Seq<char>,
    expr: IRExpr,
    parent: int,
    types: TypesModel,
)
    ensures
        operand_text(front + middle, expr, parent, types) == front + operand_text(
            middle,
            expr,
            parent,
            types,
        ),
        is_plain(middle) ==> is_plain(operand_text(middle, expr, parent, types)),
    decreases expr, 4nat,
{
    lemma_brackets_are_plain();
    if expr is BinOp {
        let opened = middle + "("@;
        assert((front + middle) + "("@ =~= front + opened);
        lemma_shown(front, opened, expr, 0, types);
        assert(operand_text(front + middle, expr, parent, types) =~= front + operand_text(
            middle,
            expr,
            parent,
            types,
        ));
    } else {
        lemma_shown(front, middle, expr, parent, types);
    }
}

proof fn lemma_bare(front: Seq<char>, middle: Seq<char>, expr: IRExpr, types: TypesModel)
    ensures
        bare_text(front + middle, expr, types) == front + bare_text(middle, expr, types),
        is_plain(middle) ==> is_plain(bare_text(middle, expr, types)),
    decreases expr, 2nat,
{
    let own = binding(expr);
    let whole = front + middle;
    lemma_brackets_are_plain();
    match expr {
        IRExpr::BinOp { kind, lhs, rhs } => {
            lemma_operator_is_plain(kind);
            lemma_operand(front, middle, *lhs, own, types);
            let left = operand_text(middle, *lhs, own, types) + " "@ + operator_text(kind)
                + " "@;
            assert(operand_text(whole, *lhs, own, types) + " "@ + operator_text(kind) + " "@
                =~= front + left);
            lemma_operand(front, left, *rhs, own + 1, types);
        },
        IRExpr::Deref(address) => {
            lemma_pointee(front, middle, *address, types);
        },
        IRExpr::CStringLength(base) => {
            let opened = middle + "strlen("@;
            assert(whole + "strlen("@ =~= front + opened);
            lemma_shown(front, opened, *base, 0, types);
            assert(bare_text(whole, expr, types) =~= front + bare_text(middle, expr, types));
        },
        IRExpr::ElementAddress { .. } => {
            let opened = middle + "&"@;
            assert(whole + "&"@ =~= front + opened);
            lemma_element(front, opened, expr, types);
        },
        IRExpr::MemoryAddress { address, .. } => {
            let opened = middle + "(Unknown*)("@;
            assert(whole + "(Unknown*)("@ =~= front + opened);
            lemma_shown(front, opened, *address, 0, types);
            assert(bare_text(whole, expr, types) =~= front + bare_text(middle, expr, types));
        },
        IRExpr::Argument(_) => {
            lemma_slot(front, middle, expr);
        },
        IRExpr::Convert { value, source, target } => {
            lemma_integer_name(source);
            lemma_integer_name(target);
            if integer_type_of(types, *value) == Some(source) || target.size <= source.size {
                let opened = middle + target.name_text() + "("@;
                assert(whole + target.name_text() + "("@ =~= front + opened);
                lemma_shown(front, opened, *value, 0, types);
            } else {
                let opened = middle + target.name_text() + "("@ + source.name_text() + "("@;
                assert(whole + target.name_text() + "("@ + source.name_text() + "("@ =~= front
                    + opened);
                lemma_shown(front, opened, *value, 0, types);
            }
            assert(bare_text(whole, expr, types) =~= front + bare_text(middle, expr, types));
        },
        IRExpr::CU8(value) => {
            lemma_digits_are_plain(value as nat, 16);
            assert(bare_text(whole, expr, types) =~= front + bare_text(middle, expr, types));
        },
        IRExpr::CU32(value) => {
            lemma_digits_are_plain(value as nat, 16);
            assert(bare_text(whole, expr, types) =~= front + bare_text(middle, expr, types));
        },
        IRExpr::CU64(value) => {
            lemma_digits_are_plain(value as nat, 16);
            assert(bare_text(whole, expr, types) =~= front + bare_text(middle, expr, types));
        },
        IRExpr::Variable(_) => {
            lemma_slot(front, middle, expr);
        },
        IRExpr::Data(id) => {
            lemma_digits_are_plain(id.id as nat, 16);
            assert(bare_text(whole, expr, types) =~= front + bare_text(middle, expr, types));
        },
        IRExpr::Bool(value) => {
            assert(bare_text(whole, expr, types) =~= front + bare_text(middle, expr, types));
        },
        IRExpr::Not(inner) => {
            let opened = middle + "!"@;
            assert(whole + "!"@ =~= front + opened);
            lemma_operand(front, opened, *inner, own, types);
        },
    }
}

proof fn lemma_shown(
    front: Seq<char>,
    middle: Seq<char>,
    expr: IRExpr,
    parent: int,
    types: TypesModel,
)
    ensures
        shown(front + middle, expr, parent, types) == front + shown(middle, expr, parent, types),
        is_plain(middle) ==> is_plain(shown(middle, expr, parent, types)),
    decreases expr, 3nat,
{
    lemma_brackets_are_plain();
    match expr {
        IRExpr::MemoryAddress { address, .. } if is_pointer_address(types, *address) => {
            lemma_shown(front, middle, *address, parent, types);
        },
        _ => if binding(expr) < parent {
            let opened = middle + "("@;
            assert((front + middle) + "("@ =~= front + opened);
            lemma_bare(front, opened, expr, types);
            assert(shown(front + middle, expr, parent, types) =~= front + shown(
                middle,
                expr,
                parent,
                types,
            ));
        } else {
            lemma_bare(front, middle, expr, types);
        },
    }
}

proof fn lemma_arguments(
    front: Seq<char>,
    middle: Seq<char>,
    arguments: Seq<IRExpr>,
    types: TypesModel,
)
    ensures
        arguments_text(front + middle, arguments, types) == front + arguments_text(
            middle,
            arguments,
            types,
        ),
        is_plain(middle) ==> is_plain(arguments_text(middle, arguments, types)),
    decreases arguments.len(),
{
    lemma_brackets_are_plain();
    if arguments.len() > 0 {
        lemma_arguments(front, middle, arguments.drop_last(), types);
        let listed = arguments_text(middle, arguments.drop_last(), types);
        let separated = if arguments.len() > 1 {
            listed + ", "@
        } else {
            listed
        };
        assert((front + listed) + ", "@ =~= front + (listed + ", "@));
        lemma_shown(front, separated, arguments.last(), 0, types);
    }
}

proof fn lemma_type(
    front: Seq<char>,
    middle: Seq<char>,
    ty: VariableType,
    structs: Seq<StructModel>,
)
    requires
        forall|i: int| 0 <= i < structs.len() ==> is_tame((#[trigger] structs[i]).name),
    ensures
        type_text(front + middle, ty, structs) == front + type_text(middle, ty, structs),
        is_begun(middle) ==> is_free(type_text(middle, ty, structs)),
    decreases ty,
{
    lemma_names_are_plain();
    let whole = front + middle;
    let own = type_text(middle, ty, structs);
    match ty {
        VariableType::Pointer(pointee) => {
            lemma_type(front, middle, *pointee, structs);
            if is_begun(middle) {
                lemma_free_goes_on(type_text(middle, *pointee, structs), "*"@);
            }
            assert(type_text(whole, ty, structs) =~= front + own);
        },
        VariableType::Vector(element) => {
            let opened = middle + "vec<"@;
            assert(whole + "vec<"@ =~= front + opened);
            lemma_type(front, opened, *element, structs);
            if is_begun(middle) {
                let k = choose|k: int| 0 <= k < middle.len() && !is_blank(#[trigger] middle[k]);
                assert(opened[k] == middle[k]);
                assert(is_begun(opened));
                lemma_free_goes_on(type_text(opened, *element, structs), ">"@);
            }
            assert(type_text(whole, ty, structs) =~= front + own);
        },
        VariableType::Struct(id) => {
            assert(type_text(whole, ty, structs) =~= front + own);
            if is_begun(middle) {
                if id.id < structs.len() {
                    lemma_begun_is_free(middle, structs[id.id as int].name);
                } else {
                    lemma_digits_are_plain(id.id as nat, 10);
                    lemma_no_slash_is_free(own);
                }
            }
        },
        VariableType::Unknown(Some(size)) => {
            lemma_digits_are_plain(size as nat, 10);
            assert(type_text(whole, ty, structs) =~= front + own);
            if is_begun(middle) {
                lemma_no_slash_is_free(own);
            }
        },
        VariableType::Integer(bits) | VariableType::UnsignedInteger(bits) => {
            lemma_digits_are_plain(bits as nat, 10);
            assert(type_text(whole, ty, structs) =~= front + own);
            if is_begun(middle) {
                lemma_no_slash_is_free(own);
            }
        },
        _ => {
            assert(type_text(whole, ty, structs) =~= front + own);
            if is_begun(middle) {
                lemma_no_slash_is_free(own);
            }
        },
    }
}

// ---------------------------------------------------------------------------
// Instructions

proof fn lemma_label(front: Seq<char>, middle: Seq<char>, label: Option<LoopId>)
    ensures
        label_text(front + middle, label) == front + label_text(middle, label),
        is_plain(middle) ==> is_plain(label_text(middle, label)),
{
    lemma_words_are_plain();
    if let Some(label) = label {
        lemma_digits_are_plain(label.id as nat, 10);
    }
    assert(label_text(front + middle, label) =~= front + label_text(middle, label));
}

proof fn lemma_function_name(front: Seq<char>, middle: Seq<char>, id: SyntheticFunctionId)
    ensures
        function_name_text(front + middle, id) == front + function_name_text(middle, id),
        is_plain(middle) ==> is_plain(function_name_text(middle, id)),
{
    lemma_names_are_plain();
    lemma_digits_are_plain(id.id as nat, 10);
    assert(function_name_text(front + middle, id) =~= front + function_name_text(middle, id));
}

proof fn lemma_address(front: Seq<char>, middle: Seq<char>, padding: Seq<char>, offset: usize)
    ensures
        address_text(front + middle, padding, offset) == front + address_text(
            middle,
            padding,
            offset,
        ),
{
    assert(address_text(front + middle, padding, offset) =~= front + address_text(
        middle,
        padding,
        offset,
    ));
}

/// What an instruction without others in it adds does not depend on the text before it.
#[verifier::rlimit(30)]
proof fn lemma_simple_after(
    front: Seq<char>,
    middle: Seq<char>,
    instr: InstModel,
    padding: Seq<char>,
    types: TypesModel,
    noted: bool,
)
    requires
        forall|i: int| 0 <= i < types.structs.len() ==> is_tame((#[trigger] types.structs[i]).name),
        !(instr is If) && !(instr is While) && !(instr is ForEach),
    ensures
        instruction_text(front + middle, instr, padding, types, noted) == front + instruction_text(
            middle,
            instr,
            padding,
            types,
            noted,
        ),
{
    let whole = front + middle;
    let start = middle + padding;
    assert(whole + padding =~= front + start);
    let made = instruction_text(middle, instr, padding, types, noted);
    match instr {
        InstModel::Assign { dest, src } => {
            lemma_shown(front, start, dest, 0, types);
            let left = shown(start, dest, 0, types) + " = "@;
            assert((front + shown(start, dest, 0, types)) + " = "@ =~= front + left);
            lemma_shown(front, left, src, 0, types);
        },
        InstModel::CompoundAssign { dest, kind, value } => {
            lemma_shown(front, start, dest, 0, types);
            let left = shown(start, dest, 0, types) + " "@ + operator_text(kind) + "= "@;
            assert((front + shown(start, dest, 0, types)) + " "@ + operator_text(kind) + "= "@
                =~= front + left);
            lemma_shown(front, left, value, 0, types);
        },
        InstModel::Return(Some(value)) => {
            let opened = start + "return "@;
            assert((front + start) + "return "@ =~= front + opened);
            lemma_shown(front, opened, value, 0, types);
        },
        InstModel::DeclareVariable { variable, ty } => {
            let opened = start + "let "@;
            assert((front + start) + "let "@ =~= front + opened);
            lemma_variable(front, opened, variable);
            let named = variable_name_text(opened, variable) + ": "@;
            assert((front + variable_name_text(opened, variable)) + ": "@ =~= front + named);
            lemma_type(front, named, ty, types.structs);
        },
        InstModel::DeclareAndAssignVariable { variable, ty, value } => {
            let opened = start + "let "@;
            assert((front + start) + "let "@ =~= front + opened);
            lemma_variable(front, opened, variable);
            let named = variable_name_text(opened, variable) + ": "@;
            assert((front + variable_name_text(opened, variable)) + ": "@ =~= front + named);
            lemma_type(front, named, ty, types.structs);
            let left = type_text(named, ty, types.structs) + " = "@;
            assert((front + type_text(named, ty, types.structs)) + " = "@ =~= front + left);
            lemma_shown(front, left, value, 0, types);
        },
        InstModel::AssignVariable { variable, value } => {
            lemma_variable(front, start, variable);
            let left = variable_name_text(start, variable) + " = "@;
            assert((front + variable_name_text(start, variable)) + " = "@ =~= front + left);
            lemma_shown(front, left, value, 0, types);
        },
        InstModel::LoadVariable { variable, address } => {
            lemma_variable(front, start, variable);
            let left = variable_name_text(start, variable) + " = "@;
            assert((front + variable_name_text(start, variable)) + " = "@ =~= front + left);
            lemma_pointee(front, left, address, types);
        },
        InstModel::StoreVariable { address, variable } => {
            lemma_pointee(front, start, address, types);
            let left = pointee_text(start, address, types) + " = "@;
            assert((front + pointee_text(start, address, types)) + " = "@ =~= front + left);
            lemma_variable(front, left, variable);
        },
        InstModel::CallSynthetic { function, arguments } => {
            let opened = start + "return "@;
            assert((front + start) + "return "@ =~= front + opened);
            lemma_function_name(front, opened, function);
            let named = function_name_text(opened, function) + "("@;
            assert((front + function_name_text(opened, function)) + "("@ =~= front + named);
            lemma_arguments(front, named, arguments, types);
        },
        InstModel::Jump(target) => {
            let opened = start + "jump("@;
            assert((front + start) + "jump("@ =~= front + opened);
            lemma_shown(front, opened, target, 0, types);
        },
        _ => {},
    }
    assert(instruction_text(whole, instr, padding, types, noted) =~= front + made);
}

/// What an instruction adds does not depend on the text before it.
#[verifier::rlimit(30)]
proof fn lemma_instruction(
    front: Seq<char>,
    middle: Seq<char>,
    instr: InstModel,
    padding: Seq<char>,
    types: TypesModel,
    noted: bool,
)
    requires
        forall|i: int| 0 <= i < types.structs.len() ==> is_tame((#[trigger] types.structs[i]).name),
    ensures
        instruction_text(front + middle, instr, padding, types, noted) == front + instruction_text(
            middle,
            instr,
            padding,
            types,
            noted,
        ),
    decreases instr,
{
    let whole = front + middle;
    let nested = padding + "    "@;
    let start = middle + padding;
    assert(whole + padding =~= front + start);
    let made = instruction_text(middle, instr, padding, types, noted);
    match instr {
        InstModel::If { condition, then_branch, else_branch } => {
            let asked = start + "if ("@;
            assert((front + start) + "if ("@ =~= front + asked);
            lemma_shown(front, asked, condition, 0, types);
            let opened = shown(asked, condition, 0, types) + ") {\n"@;
            assert((front + shown(asked, condition, 0, types)) + ") {\n"@ =~= front + opened);
            lemma_instructions(front, opened, then_branch, nested, types, noted);
            let first = instructions_text(opened, then_branch, nested, types, noted);
            let turned = first + padding + "} else {\n"@;
            assert((front + first) + padding + "} else {\n"@ =~= front + turned);
            lemma_instructions(front, turned, else_branch, nested, types, noted);
            let second = if else_branch.len() > 0 {
                instructions_text(turned, else_branch, nested, types, noted)
            } else {
                first
            };
            assert((front + second) + padding + "}\n"@ =~= front + made);
        },
        InstModel::While { label, entry_offset, condition, body } => {
            lemma_while(front, middle, label, entry_offset, condition, padding, types, noted);
            let opened = opening(middle, label, entry_offset, condition, padding, types, noted);
            lemma_body(front, opened, entry_offset, body, nested, types, noted);
            let inner = body_text(opened, entry_offset, body, nested, types, noted);
            match condition {
                LoopCondition::Before { .. } => {
                    assert((front + inner.0) + padding + "}\n"@ =~= front + made);
                },
                LoopCondition::After { offset, expression } => {
                    lemma_address(front, inner.0, nested, offset);
                    let last = if noted && inner.1 != offset {
                        address_text(inner.0, nested, offset)
                    } else {
                        inner.0
                    };
                    let asked = last + padding + "} while ("@;
                    assert((front + last) + padding + "} while ("@ =~= front + asked);
                    lemma_shown(front, asked, expression, 0, types);
                },
            }
        },
        InstModel::ForEach { entry_offset, body, .. } => {
            lemma_header(front, middle, instr, padding, types, noted);
            let opened = header(middle, instr, padding, types, noted);
            lemma_body(front, opened, entry_offset, body, nested, types, noted);
            let inner = body_text(opened, entry_offset, body, nested, types, noted);
            assert((front + inner.0) + padding + "}\n"@ =~= front + made);
        },
        _ => {
            lemma_simple_after(front, middle, instr, padding, types, noted);
        },
    }
    assert(instruction_text(whole, instr, padding, types, noted) =~= front + made);
}

/// The text after the first line of a loop.
spec fn opening(
    out: Seq<char>,
    label: Option<LoopId>,
    entry_offset: usize,
    condition: LoopCondition,
    padding: Seq<char>,
    types: TypesModel,
    noted: bool,
) -> Seq<char> {
    match condition {
        LoopCondition::Before { offset, expression } => {
            let begun = if noted && offset != entry_offset {
                address_text(out, padding, offset)
            } else {
                out
            };
            shown(label_text(begun + padding, label) + "while ("@, expression, 0, types)
                + ") {\n"@
        },
        LoopCondition::After { .. } => label_text(out + padding, label) + "do {\n"@,
    }
}

proof fn lemma_while(
    front: Seq<char>,
    middle: Seq<char>,
    label: Option<LoopId>,
    entry_offset: usize,
    condition: LoopCondition,
    padding: Seq<char>,
    types: TypesModel,
    noted: bool,
)
    ensures
        opening(front + middle, label, entry_offset, condition, padding, types, noted) == front
            + opening(middle, label, entry_offset, condition, padding, types, noted),
{
    let made = opening(middle, label, entry_offset, condition, padding, types, noted);
    match condition {
        LoopCondition::Before { offset, expression } => {
            lemma_address(front, middle, padding, offset);
            let begun = if noted && offset != entry_offset {
                address_text(middle, padding, offset)
            } else {
                middle
            };
            let start = begun + padding;
            assert((front + begun) + padding =~= front + start);
            lemma_label(front, start, label);
            let asked = label_text(start, label) + "while ("@;
            assert((front + label_text(start, label)) + "while ("@ =~= front + asked);
            lemma_shown(front, asked, expression, 0, types);
            assert((front + shown(asked, expression, 0, types)) + ") {\n"@ =~= front + made);
        },
        LoopCondition::After { .. } => {
            let start = middle + padding;
            assert((front + middle) + padding =~= front + start);
            lemma_label(front, start, label);
            assert((front + label_text(start, label)) + "do {\n"@ =~= front + made);
        },
    }
}

/// The text after the comments of a loop over a vector.
spec fn entered(out: Seq<char>, instr: InstModel, padding: Seq<char>) -> Seq<char> {
    match instr {
        InstModel::ForEach {
            entry_offset,
            condition_offset,
            advance_offset,
            load_offset,
            index_bits,
            ..
        } => {
            let entered = address_text(out, padding, entry_offset) + padding + "// u"@ + decimal(
                index_bits as nat,
            ) + " index wraps; advance 0x"@ + hex(advance_offset as nat) + ", load 0x"@ + hex(
                load_offset as nat,
            ) + "\n"@;
            if condition_offset != entry_offset {
                address_text(entered, padding, condition_offset)
            } else {
                entered
            }
        },
        _ => out,
    }
}

/// The text after the line that opens a loop over a vector.
spec fn loop_line(
    out: Seq<char>,
    instr: InstModel,
    padding: Seq<char>,
    types: TypesModel,
) -> Seq<char> {
    match instr {
        InstModel::ForEach { variable, element_type, vector, start, .. } => {
            let named = type_text(
                variable_name_text(out + padding + "for "@, variable) + ": "@,
                element_type,
                types.structs,
            ) + " in "@;
            shown(named, vector, 10, types) + "["@ + decimal(start as nat) + "..] {\n"@
        },
        _ => out,
    }
}

spec fn header(
    out: Seq<char>,
    instr: InstModel,
    padding: Seq<char>,
    types: TypesModel,
    noted: bool,
) -> Seq<char> {
    loop_line(
        if noted {
            entered(out, instr, padding)
        } else {
            out
        },
        instr,
        padding,
        types,
    )
}

proof fn lemma_entered(front: Seq<char>, middle: Seq<char>, instr: InstModel, padding: Seq<char>)
    ensures
        entered(front + middle, instr, padding) == front + entered(middle, instr, padding),
{
    match instr {
        InstModel::ForEach {
            entry_offset,
            condition_offset,
            advance_offset,
            load_offset,
            index_bits,
            ..
        } => {
            lemma_address(front, middle, padding, entry_offset);
            let first = address_text(middle, padding, entry_offset);
            let both = first + padding + "// u"@ + decimal(index_bits as nat)
                + " index wraps; advance 0x"@ + hex(advance_offset as nat) + ", load 0x"@ + hex(
                load_offset as nat,
            ) + "\n"@;
            assert((front + first) + padding + "// u"@ + decimal(index_bits as nat)
                + " index wraps; advance 0x"@ + hex(advance_offset as nat) + ", load 0x"@ + hex(
                load_offset as nat,
            ) + "\n"@ =~= front + both);
            lemma_address(front, both, padding, condition_offset);
        },
        _ => {},
    }
}

proof fn lemma_loop_line(
    front: Seq<char>,
    middle: Seq<char>,
    instr: InstModel,
    padding: Seq<char>,
    types: TypesModel,
)
    requires
        forall|i: int| 0 <= i < types.structs.len() ==> is_tame((#[trigger] types.structs[i]).name),
    ensures
        loop_line(front + middle, instr, padding, types) == front + loop_line(
            middle,
            instr,
            padding,
            types,
        ),
{
    match instr {
        InstModel::ForEach { variable, element_type, vector, start, .. } => {
            let opened = middle + padding + "for "@;
            assert((front + middle) + padding + "for "@ =~= front + opened);
            lemma_variable(front, opened, variable);
            let called = variable_name_text(opened, variable) + ": "@;
            assert((front + variable_name_text(opened, variable)) + ": "@ =~= front + called);
            lemma_type(front, called, element_type, types.structs);
            let named = type_text(called, element_type, types.structs) + " in "@;
            assert((front + type_text(called, element_type, types.structs)) + " in "@ =~= front
                + named);
            lemma_shown(front, named, vector, 10, types);
            let shown_vector = shown(named, vector, 10, types);
            assert((front + shown_vector) + "["@ + decimal(start as nat) + "..] {\n"@ =~= front + (
            shown_vector + "["@ + decimal(start as nat) + "..] {\n"@));
        },
        _ => {},
    }
}

proof fn lemma_header(
    front: Seq<char>,
    middle: Seq<char>,
    instr: InstModel,
    padding: Seq<char>,
    types: TypesModel,
    noted: bool,
)
    requires
        forall|i: int| 0 <= i < types.structs.len() ==> is_tame((#[trigger] types.structs[i]).name),
    ensures
        header(front + middle, instr, padding, types, noted) == front + header(
            middle,
            instr,
            padding,
            types,
            noted,
        ),
{
    lemma_entered(front, middle, instr, padding);
    lemma_loop_line(
        front,
        if noted {
            entered(middle, instr, padding)
        } else {
            middle
        },
        instr,
        padding,
        types,
    );
}

proof fn lemma_instructions(
    front: Seq<char>,
    middle: Seq<char>,
    list: Seq<InstModel>,
    padding: Seq<char>,
    types: TypesModel,
    noted: bool,
)
    requires
        forall|i: int| 0 <= i < types.structs.len() ==> is_tame((#[trigger] types.structs[i]).name),
    ensures
        instructions_text(front + middle, list, padding, types, noted) == front
            + instructions_text(middle, list, padding, types, noted),
    decreases list,
{
    if list.len() > 0 {
        lemma_instructions(front, middle, list.drop_last(), padding, types, noted);
        lemma_instruction(
            front,
            instructions_text(middle, list.drop_last(), padding, types, noted),
            list[list.len() - 1],
            padding,
            types,
            noted,
        );
    }
}

proof fn lemma_body(
    front: Seq<char>,
    middle: Seq<char>,
    entry_offset: usize,
    body: Seq<(usize, InstModel)>,
    padding: Seq<char>,
    types: TypesModel,
    noted: bool,
)
    requires
        forall|i: int| 0 <= i < types.structs.len() ==> is_tame((#[trigger] types.structs[i]).name),
    ensures
        ({
            let made = body_text(middle, entry_offset, body, padding, types, noted);
            body_text(front + middle, entry_offset, body, padding, types, noted) == (
                front + made.0,
                made.1,
            )
        }),
    decreases body,
{
    if body.len() > 0 {
        lemma_body(front, middle, entry_offset, body.drop_last(), padding, types, noted);
        let before = body_text(middle, entry_offset, body.drop_last(), padding, types, noted);
        let offset = body[body.len() - 1].0;
        lemma_address(front, before.0, padding, offset);
        lemma_instruction(
            front,
            if noted && before.1 != offset {
                address_text(before.0, padding, offset)
            } else {
                before.0
            },
            body[body.len() - 1].1,
            padding,
            types,
            noted,
        );
    }
}

// ---------------------------------------------------------------------------
// What comments leave

spec fn is_spaces(text: Seq<char>) -> bool {
    forall|i: int| 0 <= i < text.len() ==> #[trigger] text[i] == ' '
}

proof fn lemma_one_line(text: Seq<char>)
    requires
        text.len() > 0,
        text.last() == '\n',
        forall|i: int| 0 <= i < text.len() - 1 ==> #[trigger] text[i] != '\n',
    ensures
        line_length(text) == text.len(),
    decreases text.len(),
{
    if text.len() > 1 {
        let rest = text.subrange(1, text.len() as int);
        assert(text[0] != '\n');
        assert forall|i: int| 0 <= i < rest.len() - 1 implies #[trigger] rest[i] != '\n' by {
            assert(rest[i] == text[i + 1]);
        }
        lemma_one_line(rest);
    }
}

proof fn lemma_is_comment(padding: Seq<char>, comment: Seq<char>)
    requires
        is_spaces(padding),
        comment.len() > 1,
        comment[0] == '/',
        comment[1] == '/',
    ensures
        starts_comment(padding + comment),
    decreases padding.len(),
{
    let all = padding + comment;
    if padding.len() > 0 {
        let rest = padding.subrange(1, padding.len() as int);
        assert(padding[0] == ' ');
        assert(all.subrange(1, all.len() as int) =~= rest + comment);
        assert forall|i: int| 0 <= i < rest.len() implies #[trigger] rest[i] == ' ' by {
            assert(rest[i] == padding[i + 1]);
        }
        lemma_is_comment(rest, comment);
    }
}

/// A comment leaves nothing.
proof fn lemma_comment_line(padding: Seq<char>, comment: Seq<char>)
    requires
        is_spaces(padding),
        comment.len() > 2,
        comment[0] == '/',
        comment[1] == '/',
        comment.last() == '\n',
        forall|i: int| 0 <= i < comment.len() - 1 ==> #[trigger] comment[i] != '\n',
    ensures
        shows(padding + comment, Seq::empty()),
{
    let line = padding + comment;
    reveal(shows);
    lemma_is_comment(padding, comment);
    assert forall|i: int| 0 <= i < line.len() - 1 implies #[trigger] line[i] != '\n' by {
        if i < padding.len() {
            assert(padding[i] == ' ');
        } else {
            assert(comment[i - padding.len()] != '\n');
        }
    }
    lemma_one_line(line);
    let rest = later_lines(line);
    assert(rest =~= Seq::empty());
    assert(without_comments(rest) == rest);
    assert(without_comments(line) == Seq::<char>::empty() + rest);
}

proof fn lemma_address_line(padding: Seq<char>, offset: usize)
    requires
        is_spaces(padding),
    ensures
        shows(address_text(Seq::empty(), padding, offset), Seq::empty()),
{
    reveal_strlit("// 0x");
    reveal_strlit("\n");
    lemma_digits_are_plain(offset as nat, 16);
    let comment = "// 0x"@ + hex(offset as nat) + "\n"@;
    lemma_comment_line(padding, comment);
    assert(address_text(Seq::empty(), padding, offset) =~= padding + comment);
}

proof fn lemma_noted_address(
    noted: Seq<char>,
    bare: Seq<char>,
    padding: Seq<char>,
    offset: usize,
)
    requires
        shows(noted, bare),
        is_spaces(padding),
    ensures
        shows(address_text(noted, padding, offset), bare),
{
    lemma_address_line(padding, offset);
    let line = address_text(Seq::empty(), padding, offset);
    lemma_shows_joined(noted, bare, line, Seq::empty());
    assert(address_text(noted, padding, offset) =~= noted + line);
    assert(bare + Seq::<char>::empty() =~= bare);
}

proof fn lemma_noted_line(noted: Seq<char>, bare: Seq<char>, line: Seq<char>)
    requires
        shows(noted, bare),
        is_free(line),
        is_complete(line),
    ensures
        shows(noted + line, bare + line),
{
    lemma_shows_itself(line);
    lemma_shows_joined(noted, bare, line, line);
}

/// Spaces and an ending make a line.
proof fn lemma_ending_line(padding: Seq<char>, ending: Seq<char>)
    requires
        lacks_slash(padding),
        is_ending(ending),
    ensures
        is_free(padding + ending),
        is_complete(padding + ending),
{
    lemma_no_slash_is_free(padding + ending);
}

proof fn lemma_entered_shows(
    noted: Seq<char>,
    bare: Seq<char>,
    instr: InstModel,
    padding: Seq<char>,
)
    requires
        shows(noted, bare),
        is_spaces(padding),
    ensures
        shows(entered(noted, instr, padding), bare),
{
    match instr {
        InstModel::ForEach {
            entry_offset,
            condition_offset,
            advance_offset,
            load_offset,
            index_bits,
            ..
        } => {
            reveal_strlit("// u");
            reveal_strlit(" index wraps; advance 0x");
            reveal_strlit(", load 0x");
            reveal_strlit("\n");
            lemma_digits_are_plain(index_bits as nat, 10);
            lemma_digits_are_plain(advance_offset as nat, 16);
            lemma_digits_are_plain(load_offset as nat, 16);
            assert(is_plain(" index wraps; advance 0x"@));
            assert(is_plain(", load 0x"@));
            lemma_noted_address(noted, bare, padding, entry_offset);
            let first = address_text(noted, padding, entry_offset);
            let comment = "// u"@ + decimal(index_bits as nat) + " index wraps; advance 0x"@ + hex(
                advance_offset as nat,
            ) + ", load 0x"@ + hex(load_offset as nat) + "\n"@;
            lemma_comment_line(padding, comment);
            lemma_shows_joined(first, bare, padding + comment, Seq::empty());
            let both = first + padding + "// u"@ + decimal(index_bits as nat)
                + " index wraps; advance 0x"@ + hex(advance_offset as nat) + ", load 0x"@ + hex(
                load_offset as nat,
            ) + "\n"@;
            assert(both =~= first + (padding + comment));
            assert(bare + Seq::<char>::empty() =~= bare);
            lemma_noted_address(both, bare, padding, condition_offset);
        },
        _ => {},
    }
}

proof fn lemma_begun(padding: Seq<char>, word: Seq<char>)
    requires
        is_plain(padding),
        is_plain(word),
        word.len() > 0,
        !is_blank(word[0]),
    ensures
        is_begun(padding + word),
{
    let all = padding + word;
    assert(all[padding.len() as int] == word[0]);
}

proof fn lemma_begun_goes_on(first: Seq<char>, second: Seq<char>)
    requires
        is_begun(first),
        is_plain(second),
    ensures
        is_begun(first + second),
{
    let k = choose|k: int| 0 <= k < first.len() && !is_blank(#[trigger] first[k]);
    assert((first + second)[k] == first[k]);
}

proof fn lemma_loop_line_is_free(instr: InstModel, padding: Seq<char>, types: TypesModel)
    requires
        is_spaces(padding),
        forall|i: int| 0 <= i < types.structs.len() ==> is_tame((#[trigger] types.structs[i]).name),
    ensures
        is_free(loop_line(Seq::empty(), instr, padding, types)),
        is_complete(loop_line(Seq::empty(), instr, padding, types)),
{
    let none = Seq::<char>::empty();
    match instr {
        InstModel::ForEach { variable, element_type, vector, start, .. } => {
            reveal_strlit("for ");
            lemma_words_are_plain();
            lemma_brackets_are_plain();
            lemma_ends_are_lines();
            lemma_digits_are_plain(start as nat, 10);
            lemma_begun(padding, "for "@);
            let opened = none + padding + "for "@;
            assert(opened =~= padding + "for "@);
            let called = variable_name_text(opened, variable) + ": "@;
            lemma_begun_name(opened, variable);
            lemma_begun_goes_on(variable_name_text(opened, variable), ": "@);
            lemma_type(none, called, element_type, types.structs);
            let kind = type_text(called, element_type, types.structs);
            let named = kind + " in "@;
            lemma_shown(named, none, vector, 10, types);
            let vector_text = shown(none, vector, 10, types);
            assert(named + none =~= named);
            assert(shown(named, vector, 10, types) == named + vector_text);
            let tail = " in "@ + vector_text + "["@ + decimal(start as nat) + "..] {\n"@;
            assert(lacks_slash(tail));
            lemma_free_goes_on(kind, tail);
            assert(loop_line(none, instr, padding, types) =~= kind + tail);
        },
        _ => {},
    }
}

proof fn lemma_begun_name(opened: Seq<char>, variable: VariableId)
    requires
        is_begun(opened),
    ensures
        is_begun(variable_name_text(opened, variable)),
{
    lemma_variable(Seq::empty(), opened, variable);
    let k = choose|k: int| 0 <= k < opened.len() && !is_blank(#[trigger] opened[k]);
    assert(variable_name_text(opened, variable)[k] == opened[k]);
}

proof fn lemma_declaration_is_free(
    variable: VariableId,
    ty: VariableType,
    padding: Seq<char>,
    types: TypesModel,
    tail: Seq<char>,
)
    requires
        is_spaces(padding),
        lacks_slash(tail),
        forall|i: int| 0 <= i < types.structs.len() ==> is_tame((#[trigger] types.structs[i]).name),
    ensures
        ({
            let opened = Seq::<char>::empty() + padding + "let "@;
            let named = variable_name_text(opened, variable) + ": "@;
            is_free(type_text(named, ty, types.structs) + tail)
        }),
{
    reveal_strlit("let ");
    lemma_words_are_plain();
    lemma_begun(padding, "let "@);
    let opened = Seq::<char>::empty() + padding + "let "@;
    assert(opened =~= padding + "let "@);
    lemma_begun_name(opened, variable);
    lemma_begun_goes_on(variable_name_text(opened, variable), ": "@);
    let named = variable_name_text(opened, variable) + ": "@;
    lemma_type(Seq::empty(), named, ty, types.structs);
    lemma_free_goes_on(type_text(named, ty, types.structs), tail);
}

/// An assignment is one line.
proof fn lemma_assignment_is_line(
    instr: InstModel,
    padding: Seq<char>,
    types: TypesModel,
    noted: bool,
)
    requires
        is_spaces(padding),
        instr is Assign || instr is CompoundAssign || instr is AssignVariable
            || instr is LoadVariable || instr is StoreVariable,
    ensures
        ({
            let made = instruction_text(Seq::empty(), instr, padding, types, noted);
            &&& is_free(made)
            &&& is_complete(made)
        }),
{
    let none = Seq::<char>::empty();
    let start = none + padding;
    lemma_words_are_plain();
    lemma_ends_are_lines();
    assert(is_plain(start));
    match instr {
        InstModel::Assign { dest, src } => {
            lemma_shown(none, start, dest, 0, types);
            let left = shown(start, dest, 0, types) + " = "@;
            lemma_shown(none, left, src, 0, types);
            lemma_ending_line(shown(left, src, 0, types), ";\n"@);
        },
        InstModel::CompoundAssign { dest, kind, value } => {
            lemma_brackets_are_plain();
            lemma_operator_is_plain(kind);
            lemma_shown(none, start, dest, 0, types);
            let left = shown(start, dest, 0, types) + " "@ + operator_text(kind) + "= "@;
            lemma_shown(none, left, value, 0, types);
            lemma_ending_line(shown(left, value, 0, types), ";\n"@);
        },
        InstModel::AssignVariable { variable, value } => {
            lemma_variable(none, start, variable);
            let left = variable_name_text(start, variable) + " = "@;
            lemma_shown(none, left, value, 0, types);
            lemma_ending_line(shown(left, value, 0, types), ";\n"@);
        },
        InstModel::LoadVariable { variable, address } => {
            lemma_variable(none, start, variable);
            let left = variable_name_text(start, variable) + " = "@;
            lemma_pointee(none, left, address, types);
            lemma_ending_line(pointee_text(left, address, types), ";\n"@);
        },
        InstModel::StoreVariable { address, variable } => {
            lemma_pointee(none, start, address, types);
            let left = pointee_text(start, address, types) + " = "@;
            lemma_variable(none, left, variable);
            lemma_ending_line(variable_name_text(left, variable), ";\n"@);
        },
        _ => {},
    }
}

/// A declaration is one line, but for the lines of a struct's name.
proof fn lemma_declaration_is_line(
    instr: InstModel,
    padding: Seq<char>,
    types: TypesModel,
    noted: bool,
)
    requires
        is_spaces(padding),
        forall|i: int| 0 <= i < types.structs.len() ==> is_tame((#[trigger] types.structs[i]).name),
        instr is DeclareVariable || instr is DeclareAndAssignVariable,
    ensures
        ({
            let made = instruction_text(Seq::empty(), instr, padding, types, noted);
            &&& is_free(made)
            &&& is_complete(made)
        }),
{
    let none = Seq::<char>::empty();
    lemma_words_are_plain();
    lemma_ends_are_lines();
    match instr {
        InstModel::DeclareVariable { variable, ty } => {
            lemma_declaration_is_free(variable, ty, padding, types, ";\n"@);
        },
        InstModel::DeclareAndAssignVariable { variable, ty, value } => {
            let opened = none + padding + "let "@;
            let named = variable_name_text(opened, variable) + ": "@;
            let kind = type_text(named, ty, types.structs);
            let left = kind + " = "@;
            lemma_shown(left, none, value, 0, types);
            assert(left + none =~= left);
            let tail = " = "@ + shown(none, value, 0, types) + ";\n"@;
            assert(lacks_slash(tail));
            lemma_declaration_is_free(variable, ty, padding, types, tail);
            assert(instruction_text(none, instr, padding, types, noted) =~= kind + tail);
        },
        _ => {},
    }
}

/// What leaves a block is one line.
proof fn lemma_transfer_is_line(
    instr: InstModel,
    padding: Seq<char>,
    types: TypesModel,
    noted: bool,
)
    requires
        is_spaces(padding),
        instr is Return || instr is Continue || instr is ContinueLoop || instr is Break
            || instr is CallSynthetic || instr is Jump || instr is End,
    ensures
        ({
            let made = instruction_text(Seq::empty(), instr, padding, types, noted);
            &&& is_free(made)
            &&& is_complete(made)
        }),
{
    let none = Seq::<char>::empty();
    let start = none + padding;
    lemma_words_are_plain();
    lemma_ends_are_lines();
    assert(is_plain(start));
    match instr {
        InstModel::Return(Some(value)) => {
            let opened = start + "return "@;
            lemma_shown(none, opened, value, 0, types);
            lemma_ending_line(shown(opened, value, 0, types), ";\n"@);
        },
        InstModel::Return(None) => {
            lemma_ending_line(start, "return;\n"@);
        },
        InstModel::Continue => {
            lemma_ending_line(start, "continue;\n"@);
        },
        InstModel::ContinueLoop(label) => {
            lemma_digits_are_plain(label.id as nat, 10);
            lemma_ending_line(start + "continue loop_"@ + decimal(label.id as nat), ";\n"@);
        },
        InstModel::Break => {
            lemma_ending_line(start, "break;\n"@);
        },
        InstModel::CallSynthetic { function, arguments } => {
            lemma_brackets_are_plain();
            let opened = start + "return "@;
            lemma_function_name(none, opened, function);
            let named = function_name_text(opened, function) + "("@;
            lemma_arguments(none, named, arguments, types);
            lemma_ending_line(arguments_text(named, arguments, types), ");\n"@);
        },
        InstModel::Jump(target) => {
            let opened = start + "jump("@;
            lemma_shown(none, opened, target, 0, types);
            lemma_ending_line(shown(opened, target, 0, types), ");\n"@);
        },
        InstModel::End => {
            lemma_ending_line(start, "end();\n"@);
        },
        _ => {},
    }
}

/// An instruction without others in it is free of comments, and is the same with them.
proof fn lemma_simple_instruction(instr: InstModel, padding: Seq<char>, types: TypesModel)
    requires
        is_spaces(padding),
        forall|i: int| 0 <= i < types.structs.len() ==> is_tame((#[trigger] types.structs[i]).name),
        !(instr is If) && !(instr is While) && !(instr is ForEach),
    ensures
        shows(
            instruction_text(Seq::empty(), instr, padding, types, true),
            instruction_text(Seq::empty(), instr, padding, types, false),
        ),
{
    let none = Seq::<char>::empty();
    let noted = instruction_text(none, instr, padding, types, true);
    if instr is DeclareVariable || instr is DeclareAndAssignVariable {
        lemma_declaration_is_line(instr, padding, types, true);
    } else if instr is Assign || instr is CompoundAssign || instr is AssignVariable
        || instr is LoadVariable || instr is StoreVariable {
        lemma_assignment_is_line(instr, padding, types, true);
    } else {
        lemma_transfer_is_line(instr, padding, types, true);
    }
    assert(noted == instruction_text(none, instr, padding, types, false));
    lemma_shows_itself(noted);
}

proof fn lemma_opening_shows(
    label: Option<LoopId>,
    entry_offset: usize,
    condition: LoopCondition,
    padding: Seq<char>,
    types: TypesModel,
)
    requires
        is_spaces(padding),
    ensures
        shows(
            opening(Seq::empty(), label, entry_offset, condition, padding, types, true),
            opening(Seq::empty(), label, entry_offset, condition, padding, types, false),
        ),
{
    let none = Seq::<char>::empty();
    let start = none + padding;
    lemma_words_are_plain();
    lemma_ends_are_lines();
    lemma_shows_nothing();
    lemma_label(none, start, label);
    match condition {
        LoopCondition::Before { offset, expression } => {
            let asked = label_text(start, label) + "while ("@;
            lemma_shown(none, asked, expression, 0, types);
            let line = shown(asked, expression, 0, types) + ") {\n"@;
            lemma_ending_line(shown(asked, expression, 0, types), ") {\n"@);
            let begun = if offset != entry_offset {
                address_text(none, padding, offset)
            } else {
                none
            };
            if offset != entry_offset {
                lemma_noted_address(none, none, padding, offset);
            }
            lemma_noted_line(begun, none, line);
            assert(none + line =~= line);
            lemma_label(begun, start, label);
            assert(begun + padding =~= begun + start);
            assert((begun + label_text(start, label)) + "while ("@ =~= begun + asked);
            lemma_shown(begun, asked, expression, 0, types);
            assert((begun + shown(asked, expression, 0, types)) + ") {\n"@ =~= begun + line);
        },
        LoopCondition::After { .. } => {
            lemma_ending_line(label_text(start, label), "do {\n"@);
            lemma_shows_itself(label_text(start, label) + "do {\n"@);
        },
    }
}

/// Comments add lines to a choice, where they do so to its branches.
#[verifier::rlimit(30)]
proof fn lemma_if_shows(instr: InstModel, padding: Seq<char>, types: TypesModel)
    requires
        is_spaces(padding),
        forall|i: int| 0 <= i < types.structs.len() ==> is_tame((#[trigger] types.structs[i]).name),
        instr matches InstModel::If { then_branch, else_branch, .. } && {
            &&& shows(
                instructions_text(Seq::empty(), then_branch, padding + "    "@, types, true),
                instructions_text(Seq::empty(), then_branch, padding + "    "@, types, false),
            )
            &&& shows(
                instructions_text(Seq::empty(), else_branch, padding + "    "@, types, true),
                instructions_text(Seq::empty(), else_branch, padding + "    "@, types, false),
            )
        },
    ensures
        shows(
            instruction_text(Seq::empty(), instr, padding, types, true),
            instruction_text(Seq::empty(), instr, padding, types, false),
        ),
{
    let none = Seq::<char>::empty();
    let nested = padding + "    "@;
    let start = none + padding;
    reveal_strlit("    ");
    assert(is_spaces(nested));
    let noted = instruction_text(none, instr, padding, types, true);
    let bare = instruction_text(none, instr, padding, types, false);
    lemma_words_are_plain();
    lemma_ends_are_lines();
    match instr {
        InstModel::If { condition, then_branch, else_branch } => {
            let asked = start + "if ("@;
            lemma_shown(none, asked, condition, 0, types);
            let opened = shown(asked, condition, 0, types) + ") {\n"@;
            lemma_ending_line(shown(asked, condition, 0, types), ") {\n"@);
            lemma_shows_itself(opened);
            let first_noted = list_after(opened, then_branch, nested, types, true);
            let first_bare = list_after(opened, then_branch, nested, types, false);
            let then_noted = instructions_text(none, then_branch, nested, types, true);
            let then_bare = instructions_text(none, then_branch, nested, types, false);
            lemma_shows_joined(opened, opened, then_noted, then_bare);
            let turn = padding + "} else {\n"@;
            let close = padding + "}\n"@;
            lemma_ending_line(padding, "} else {\n"@);
            lemma_ending_line(padding, "}\n"@);
            if else_branch.len() > 0 {
                lemma_noted_line(first_noted, first_bare, turn);
                assert(first_noted + padding + "} else {\n"@ =~= first_noted + turn);
                assert(first_bare + padding + "} else {\n"@ =~= first_bare + turn);
                let second_noted = list_after(
                    first_noted + turn,
                    else_branch,
                    nested,
                    types,
                    true,
                );
                let second_bare = list_after(
                    first_bare + turn,
                    else_branch,
                    nested,
                    types,
                    false,
                );
                lemma_shows_joined(
                    first_noted + turn,
                    first_bare + turn,
                    instructions_text(none, else_branch, nested, types, true),
                    instructions_text(none, else_branch, nested, types, false),
                );
                lemma_noted_line(second_noted, second_bare, close);
                assert(noted =~= second_noted + close);
                assert(bare =~= second_bare + close);
            } else {
                lemma_noted_line(first_noted, first_bare, close);
                assert(noted =~= first_noted + close);
                assert(bare =~= first_bare + close);
            }
        },
        _ => {},
    }
}

/// Comments add lines to a loop, where they do so to its body.
#[verifier::rlimit(30)]
proof fn lemma_while_shows(instr: InstModel, padding: Seq<char>, types: TypesModel)
    requires
        is_spaces(padding),
        forall|i: int| 0 <= i < types.structs.len() ==> is_tame((#[trigger] types.structs[i]).name),
        instr matches InstModel::While { entry_offset, body, .. } && shows(
            body_text(Seq::empty(), entry_offset, body, padding + "    "@, types, true).0,
            body_text(Seq::empty(), entry_offset, body, padding + "    "@, types, false).0,
        ),
    ensures
        shows(
            instruction_text(Seq::empty(), instr, padding, types, true),
            instruction_text(Seq::empty(), instr, padding, types, false),
        ),
{
    let none = Seq::<char>::empty();
    let nested = padding + "    "@;
    let start = none + padding;
    reveal_strlit("    ");
    assert(is_spaces(nested));
    let noted = instruction_text(none, instr, padding, types, true);
    let bare = instruction_text(none, instr, padding, types, false);
    lemma_words_are_plain();
    lemma_ends_are_lines();
    match instr {
        InstModel::While { label, entry_offset, condition, body } => {
            lemma_opening_shows(label, entry_offset, condition, padding, types);
            let opened_noted = opening(none, label, entry_offset, condition, padding, types, true);
            let opened_bare = opening(none, label, entry_offset, condition, padding, types, false);
            let inner_noted = body_after(opened_noted, entry_offset, body, nested, types, true);
            let inner_bare = body_after(opened_bare, entry_offset, body, nested, types, false);
            lemma_shows_joined(
                opened_noted,
                opened_bare,
                body_text(none, entry_offset, body, nested, types, true).0,
                body_text(none, entry_offset, body, nested, types, false).0,
            );
            match condition {
                LoopCondition::Before { .. } => {
                    let close = padding + "}\n"@;
                    lemma_ending_line(padding, "}\n"@);
                    lemma_noted_line(inner_noted, inner_bare, close);
                    assert(noted =~= inner_noted + close);
                    assert(bare =~= inner_bare + close);
                },
                LoopCondition::After { offset, expression } => {
                    let previous = body_text(
                        opened_noted,
                        entry_offset,
                        body,
                        nested,
                        types,
                        true,
                    ).1;
                    let last = if previous != offset {
                        address_text(inner_noted, nested, offset)
                    } else {
                        inner_noted
                    };
                    if previous != offset {
                        lemma_noted_address(inner_noted, inner_bare, nested, offset);
                    }
                    let asked = start + "} while ("@;
                    lemma_shown(none, asked, expression, 0, types);
                    lemma_ending_line(shown(asked, expression, 0, types), ");\n"@);
                    let line = shown(asked, expression, 0, types) + ");\n"@;
                    lemma_noted_line(last, inner_bare, line);
                    lemma_shown(last, asked, expression, 0, types);
                    lemma_shown(inner_bare, asked, expression, 0, types);
                    assert(last + padding + "} while ("@ =~= last + asked);
                    assert(inner_bare + padding + "} while ("@ =~= inner_bare + asked);
                    assert(noted =~= last + line);
                    assert(bare =~= inner_bare + line);
                },
            }
        },
        _ => {},
    }
}

/// Comments add lines to a loop over a vector, where they do so to its body.
#[verifier::rlimit(30)]
proof fn lemma_for_each_shows(instr: InstModel, padding: Seq<char>, types: TypesModel)
    requires
        is_spaces(padding),
        forall|i: int| 0 <= i < types.structs.len() ==> is_tame((#[trigger] types.structs[i]).name),
        instr matches InstModel::ForEach { entry_offset, body, .. } && shows(
            body_text(Seq::empty(), entry_offset, body, padding + "    "@, types, true).0,
            body_text(Seq::empty(), entry_offset, body, padding + "    "@, types, false).0,
        ),
    ensures
        shows(
            instruction_text(Seq::empty(), instr, padding, types, true),
            instruction_text(Seq::empty(), instr, padding, types, false),
        ),
{
    let none = Seq::<char>::empty();
    let nested = padding + "    "@;
    let start = none + padding;
    reveal_strlit("    ");
    assert(is_spaces(nested));
    let noted = instruction_text(none, instr, padding, types, true);
    let bare = instruction_text(none, instr, padding, types, false);
    lemma_words_are_plain();
    lemma_ends_are_lines();
    match instr {
        InstModel::ForEach { entry_offset, body, .. } => {
            lemma_shows_nothing();
            lemma_entered_shows(none, none, instr, padding);
            lemma_loop_line_is_free(instr, padding, types);
            let begun = entered(none, instr, padding);
            let line = loop_line(none, instr, padding, types);
            lemma_noted_line(begun, none, line);
            lemma_loop_line(begun, none, instr, padding, types);
            assert(begun + none =~= begun);
            assert(none + line =~= line);
            let opened_noted = header(none, instr, padding, types, true);
            let opened_bare = header(none, instr, padding, types, false);
            assert(shows(opened_noted, opened_bare));
            let inner_noted = body_after(opened_noted, entry_offset, body, nested, types, true);
            let inner_bare = body_after(opened_bare, entry_offset, body, nested, types, false);
            lemma_shows_joined(
                opened_noted,
                opened_bare,
                body_text(none, entry_offset, body, nested, types, true).0,
                body_text(none, entry_offset, body, nested, types, false).0,
            );
            let close = padding + "}\n"@;
            lemma_ending_line(padding, "}\n"@);
            lemma_noted_line(inner_noted, inner_bare, close);
            assert(noted =~= inner_noted + close);
            assert(bare =~= inner_bare + close);
        },
        _ => {},
    }
}

/// Comments add lines to an instruction, and nothing else.
proof fn lemma_instruction_shows(instr: InstModel, padding: Seq<char>, types: TypesModel)
    requires
        is_spaces(padding),
        forall|i: int| 0 <= i < types.structs.len() ==> is_tame((#[trigger] types.structs[i]).name),
    ensures
        shows(
            instruction_text(Seq::empty(), instr, padding, types, true),
            instruction_text(Seq::empty(), instr, padding, types, false),
        ),
    decreases instr,
{
    let nested = padding + "    "@;
    reveal_strlit("    ");
    assert(is_spaces(nested));
    match instr {
        InstModel::If { then_branch, else_branch, .. } => {
            lemma_list_shows(then_branch, nested, types);
            lemma_list_shows(else_branch, nested, types);
            lemma_if_shows(instr, padding, types);
        },
        InstModel::While { entry_offset, body, .. } => {
            lemma_body_shows(entry_offset, body, nested, types);
            lemma_while_shows(instr, padding, types);
        },
        InstModel::ForEach { entry_offset, body, .. } => {
            lemma_body_shows(entry_offset, body, nested, types);
            lemma_for_each_shows(instr, padding, types);
        },
        _ => {
            lemma_simple_instruction(instr, padding, types);
        },
    }
}

/// The text after a list is the text before it and what the list adds.
proof fn list_after(
    front: Seq<char>,
    list: Seq<InstModel>,
    padding: Seq<char>,
    types: TypesModel,
    noted: bool,
) -> (res: Seq<char>)
    requires
        forall|i: int| 0 <= i < types.structs.len() ==> is_tame((#[trigger] types.structs[i]).name),
    ensures
        res == instructions_text(front, list, padding, types, noted),
        res == front + instructions_text(Seq::empty(), list, padding, types, noted),
{
    let none = Seq::<char>::empty();
    lemma_instructions(front, none, list, padding, types, noted);
    assert(front + none =~= front);
    instructions_text(front, list, padding, types, noted)
}

proof fn body_after(
    front: Seq<char>,
    entry_offset: usize,
    body: Seq<(usize, InstModel)>,
    padding: Seq<char>,
    types: TypesModel,
    noted: bool,
) -> (res: Seq<char>)
    requires
        forall|i: int| 0 <= i < types.structs.len() ==> is_tame((#[trigger] types.structs[i]).name),
    ensures
        res == body_text(front, entry_offset, body, padding, types, noted).0,
        res == front + body_text(Seq::empty(), entry_offset, body, padding, types, noted).0,
{
    let none = Seq::<char>::empty();
    lemma_body(front, none, entry_offset, body, padding, types, noted);
    assert(front + none =~= front);
    body_text(front, entry_offset, body, padding, types, noted).0
}

proof fn lemma_list_shows(list: Seq<InstModel>, padding: Seq<char>, types: TypesModel)
    requires
        is_spaces(padding),
        forall|i: int| 0 <= i < types.structs.len() ==> is_tame((#[trigger] types.structs[i]).name),
    ensures
        shows(
            instructions_text(Seq::empty(), list, padding, types, true),
            instructions_text(Seq::empty(), list, padding, types, false),
        ),
    decreases list,
{
    let none = Seq::<char>::empty();
    if list.len() == 0 {
        lemma_shows_nothing();
    } else {
        let last = list[list.len() - 1];
        lemma_list_shows(list.drop_last(), padding, types);
        lemma_instruction_shows(last, padding, types);
        let noted = instructions_text(none, list.drop_last(), padding, types, true);
        let bare = instructions_text(none, list.drop_last(), padding, types, false);
        lemma_shows_joined(
            noted,
            bare,
            instruction_text(none, last, padding, types, true),
            instruction_text(none, last, padding, types, false),
        );
        lemma_instruction(noted, none, last, padding, types, true);
        lemma_instruction(bare, none, last, padding, types, false);
        assert(noted + none =~= noted);
        assert(bare + none =~= bare);
    }
}

proof fn lemma_body_shows(
    entry_offset: usize,
    body: Seq<(usize, InstModel)>,
    padding: Seq<char>,
    types: TypesModel,
)
    requires
        is_spaces(padding),
        forall|i: int| 0 <= i < types.structs.len() ==> is_tame((#[trigger] types.structs[i]).name),
    ensures
        shows(
            body_text(Seq::empty(), entry_offset, body, padding, types, true).0,
            body_text(Seq::empty(), entry_offset, body, padding, types, false).0,
        ),
    decreases body,
{
    let none = Seq::<char>::empty();
    if body.len() == 0 {
        lemma_shows_nothing();
    } else {
        let (offset, last) = body[body.len() - 1];
        lemma_body_shows(entry_offset, body.drop_last(), padding, types);
        lemma_instruction_shows(last, padding, types);
        let before = body_text(none, entry_offset, body.drop_last(), padding, types, true);
        let bare = body_text(none, entry_offset, body.drop_last(), padding, types, false).0;
        let noted = if before.1 != offset {
            address_text(before.0, padding, offset)
        } else {
            before.0
        };
        if before.1 != offset {
            lemma_noted_address(before.0, bare, padding, offset);
        }
        lemma_shows_joined(
            noted,
            bare,
            instruction_text(none, last, padding, types, true),
            instruction_text(none, last, padding, types, false),
        );
        lemma_instruction(noted, none, last, padding, types, true);
        lemma_instruction(bare, none, last, padding, types, false);
        assert(noted + none =~= noted);
        assert(bare + none =~= bare);
    }
}

/// An instruction adds the same text after any other. Without address comments no line
/// of it is a comment, and with them it is that text once the lines that are comments
/// are taken out. Lines are indented by spaces, and no line of a struct's name but the
/// first is a comment.
pub proof fn law_comments_stand_on_their_own_lines(
    out: Seq<char>,
    instr: InstModel,
    padding: Seq<char>,
    types: TypesModel,
)
    requires
        forall|i: int| 0 <= i < padding.len() ==> #[trigger] padding[i] == ' ',
        forall|i: int| 0 <= i < types.structs.len() ==> is_tame((#[trigger] types.structs[i]).name),
    ensures
        ({
            let noted = instruction_text(Seq::empty(), instr, padding, types, true);
            let bare = instruction_text(Seq::empty(), instr, padding, types, false);
            &&& instruction_text(out, instr, padding, types, true) == out + noted
            &&& instruction_text(out, instr, padding, types, false) == out + bare
            &&& is_free(bare)
            &&& without_comments(noted) == bare
        }),
{
    let none = Seq::<char>::empty();
    assert(out + none =~= out);
    lemma_instruction(out, none, instr, padding, types, true);
    lemma_instruction(out, none, instr, padding, types, false);
    lemma_instruction_shows(instr, padding, types);
    reveal(shows);
}

} // verus!
