//! The catalogue of mutators: what each kind of node gives rise to, written out.
use vstd::prelude::*;

use crate::collect::Context;
use crate::collect::Placement;
use crate::collect::ProposalView;
use crate::collect::Role;
use crate::estree::Span;
use crate::estree::Tree;

verus! {

/// What a mutant does: the mutator, the span it replaces, and by what.
pub struct Change {
    pub mutator: Seq<char>,
    pub span: Span,
    pub text: Seq<char>,
}

/// What the proposals of a list do, in order.
pub open spec fn changes(list: Seq<ProposalView>) -> Seq<Change> {
    list.map_values(
        |p: ProposalView| Change { mutator: p.mutator, span: p.sub_span, text: p.replacement },
    )
}

/// The text of a member of a node.
pub open spec fn text_of(s: Seq<char>, t: Tree, name: Seq<char>) -> Seq<char> {
    crate::collect::text_at(s, crate::estree::span_of(crate::estree::node_in(t, name)))
}

/// What puts another operator between two operands.
pub open spec fn between(
    mutator: Seq<char>,
    span: Span,
    left: Seq<char>,
    op: Seq<char>,
    right: Seq<char>,
) -> Change {
    Change { mutator, span, text: left + " "@ + op + " "@ + right }
}

/// The truth values that take the place of a test: both, but only `false` for
/// that of a loop, and none where the expression around it has decided.
pub open spec fn truths(span: Span, role: Role) -> Seq<Change> {
    match role {
        Role::Operand => Seq::empty(),
        Role::LoopTest => seq![
            Change { mutator: "ConditionalExpression"@, span, text: "false"@ },
        ],
        _ => seq![
            Change { mutator: "ConditionalExpression"@, span, text: "true"@ },
            Change { mutator: "ConditionalExpression"@, span, text: "false"@ },
        ],
    }
}

proof fn lemma_own(s: Seq<char>, t: Tree, ctx: Context)
    ensures
        ({
            let ty = crate::estree::type_of(t);
            let own = crate::mutators::own(s, t, ctx);
            &&& ty == "IfStatement"@ ==> own == crate::mutators::if_mutants(t, ctx)
            &&& ty == "WhileStatement"@ ==> own == crate::mutators::loop_mutants(t, ctx)
            &&& ty == "DoWhileStatement"@ ==> own == crate::mutators::loop_mutants(t, ctx)
            &&& ty == "ForStatement"@ ==> own == crate::mutators::loop_mutants(t, ctx)
            &&& ty == "BinaryExpression"@ ==> own == crate::mutators::binary_mutants(s, t, ctx)
            &&& ty == "LogicalExpression"@ ==> own == crate::mutators::logical_mutants(s, t, ctx)
            &&& ty == "SwitchCase"@ ==> own == crate::mutators::case_mutants(s, t)
            &&& ty == "Literal"@ ==> own == crate::mutators::literal_mutants(s, t, ctx)
            &&& ty == "TemplateLiteral"@ ==> own == crate::mutators::template_mutants(t, ctx)
            &&& ty == "ObjectExpression"@ ==> own == crate::mutators::object_mutants(t, ctx)
            &&& ty == "UnaryExpression"@ ==> own == crate::mutators::unary_mutants(s, t, ctx)
            &&& ty == "UpdateExpression"@ ==> own == crate::mutators::update_mutants(s, t, ctx)
            &&& ty == "AssignmentExpression"@ ==> own == crate::mutators::assignment_mutants(s, t, ctx)
            &&& ty == "ArrayExpression"@ ==> own == crate::mutators::array_mutants(t, ctx)
            &&& ty == "ArrowFunctionExpression"@ ==> own == crate::mutators::arrow_mutants(s, t, ctx)
            &&& ty == "CallExpression"@ ==> own == crate::mutators::call_mutants(s, t, ctx)
            &&& ty == "MemberExpression"@ ==> own == crate::mutators::member_mutants(s, t, ctx)
            &&& ty == "BlockStatement"@ ==> own == crate::mutators::block_mutants(s, t, ctx)
            &&& ty != "IfStatement"@ && ty != "WhileStatement"@ && ty != "DoWhileStatement"@ && ty != "ForStatement"@ && ty != "BinaryExpression"@ && ty != "LogicalExpression"@ && ty != "SwitchCase"@ && ty != "Literal"@ && ty != "TemplateLiteral"@ && ty != "ObjectExpression"@ && ty != "UnaryExpression"@ && ty != "UpdateExpression"@ && ty != "AssignmentExpression"@ && ty != "ArrayExpression"@ && ty != "ArrowFunctionExpression"@ && ty != "CallExpression"@ && ty != "MemberExpression"@ && ty != "BlockStatement"@
                ==> own == Seq::<ProposalView>::empty()
        }),
{
    reveal_strlit("IfStatement");
    reveal_strlit("WhileStatement");
    reveal_strlit("DoWhileStatement");
    reveal_strlit("ForStatement");
    reveal_strlit("BinaryExpression");
    reveal_strlit("LogicalExpression");
    reveal_strlit("SwitchCase");
    reveal_strlit("Literal");
    reveal_strlit("TemplateLiteral");
    reveal_strlit("ObjectExpression");
    reveal_strlit("UnaryExpression");
    reveal_strlit("UpdateExpression");
    reveal_strlit("AssignmentExpression");
    reveal_strlit("ArrayExpression");
    reveal_strlit("ArrowFunctionExpression");
    reveal_strlit("CallExpression");
    reveal_strlit("MemberExpression");
    reveal_strlit("BlockStatement");
    assert("IfStatement"@.len() == 11);
    assert("WhileStatement"@.len() == 14 && "WhileStatement"@[0] == 'W');
    assert("DoWhileStatement"@.len() == 16 && "DoWhileStatement"@[0] == 'D');
    assert("ForStatement"@.len() == 12);
    assert("BinaryExpression"@.len() == 16 && "BinaryExpression"@[0] == 'B');
    assert("LogicalExpression"@.len() == 17);
    assert("SwitchCase"@.len() == 10);
    assert("Literal"@.len() == 7);
    assert("TemplateLiteral"@.len() == 15 && "TemplateLiteral"@[0] == 'T');
    assert("ObjectExpression"@.len() == 16 && "ObjectExpression"@[0] == 'O');
    assert("UnaryExpression"@.len() == 15 && "UnaryExpression"@[0] == 'U');
    assert("UpdateExpression"@.len() == 16 && "UpdateExpression"@[0] == 'U');
    assert("AssignmentExpression"@.len() == 20);
    assert("ArrayExpression"@.len() == 15 && "ArrayExpression"@[0] == 'A');
    assert("ArrowFunctionExpression"@.len() == 23);
    assert("CallExpression"@.len() == 14 && "CallExpression"@[0] == 'C');
    assert("MemberExpression"@.len() == 16 && "MemberExpression"@[0] == 'M');
    assert("BlockStatement"@.len() == 14 && "BlockStatement"@[0] == 'B');
}

proof fn lemma_binary(s: Seq<char>, t: Tree, ctx: Context, op: Seq<char>, a: Seq<char>)
    requires
        crate::estree::text_in(t, "operator"@) == op,
        crate::mutators::binary_swaps(op) == seq![a],
        !((op == "+"@ || op == "-"@) && (crate::mutators::is_stringy(
            crate::estree::node_in(t, "left"@),
        ) || crate::mutators::is_stringy(crate::estree::node_in(t, "right"@)))),
    ensures
        changes(crate::mutators::binary_mutants(s, t, ctx)) == seq![
            between(
                if crate::mutators::is_comparison(op) {
                    "EqualityOperator"@
                } else {
                    "ArithmeticOperator"@
                },
                crate::estree::span_of(t),
                text_of(s, t, "left"@),
                a,
                text_of(s, t, "right"@),
            ),
        ] + (if crate::mutators::is_comparison(op) {
            truths(crate::estree::span_of(t), ctx.role)
        } else {
            Seq::empty()
        }),
{
    assert(changes(crate::mutators::binary_mutants(s, t, ctx)) =~= seq![
        between(
            if crate::mutators::is_comparison(op) {
                "EqualityOperator"@
            } else {
                "ArithmeticOperator"@
            },
            crate::estree::span_of(t),
            text_of(s, t, "left"@),
            a,
            text_of(s, t, "right"@),
        ),
    ] + (if crate::mutators::is_comparison(op) {
        truths(crate::estree::span_of(t), ctx.role)
    } else {
        Seq::empty()
    }));
}

proof fn lemma_binary_pair(
    s: Seq<char>,
    t: Tree,
    ctx: Context,
    op: Seq<char>,
    a: Seq<char>,
    b: Seq<char>,
)
    requires
        crate::estree::text_in(t, "operator"@) == op,
        crate::mutators::binary_swaps(op) == seq![a, b],
        op != "+"@,
        op != "-"@,
        crate::mutators::is_comparison(op),
    ensures
        changes(crate::mutators::binary_mutants(s, t, ctx)) == seq![
            between(
                "EqualityOperator"@,
                crate::estree::span_of(t),
                text_of(s, t, "left"@),
                a,
                text_of(s, t, "right"@),
            ),
            between(
                "EqualityOperator"@,
                crate::estree::span_of(t),
                text_of(s, t, "left"@),
                b,
                text_of(s, t, "right"@),
            ),
        ] + truths(crate::estree::span_of(t), ctx.role),
{
    assert(changes(crate::mutators::binary_mutants(s, t, ctx)) =~= seq![
        between(
            "EqualityOperator"@,
            crate::estree::span_of(t),
            text_of(s, t, "left"@),
            a,
            text_of(s, t, "right"@),
        ),
        between(
            "EqualityOperator"@,
            crate::estree::span_of(t),
            text_of(s, t, "left"@),
            b,
            text_of(s, t, "right"@),
        ),
    ] + truths(crate::estree::span_of(t), ctx.role));
}

proof fn lemma_operators()
    ensures
        "=="@ != "!="@,
        "=="@ != "==="@,
        "=="@ != "!=="@,
        "=="@ != "<"@,
        "=="@ != "<="@,
        "=="@ != ">"@,
        "=="@ != ">="@,
        "=="@ != "*"@,
        "=="@ != "/"@,
        "=="@ != "%"@,
        "=="@ != "+"@,
        "=="@ != "-"@,
        "!="@ != "==="@,
        "!="@ != "!=="@,
        "!="@ != "<"@,
        "!="@ != "<="@,
        "!="@ != ">"@,
        "!="@ != ">="@,
        "!="@ != "*"@,
        "!="@ != "/"@,
        "!="@ != "%"@,
        "!="@ != "+"@,
        "!="@ != "-"@,
        "==="@ != "!=="@,
        "==="@ != "<"@,
        "==="@ != "<="@,
        "==="@ != ">"@,
        "==="@ != ">="@,
        "==="@ != "*"@,
        "==="@ != "/"@,
        "==="@ != "%"@,
        "==="@ != "+"@,
        "==="@ != "-"@,
        "!=="@ != "<"@,
        "!=="@ != "<="@,
        "!=="@ != ">"@,
        "!=="@ != ">="@,
        "!=="@ != "*"@,
        "!=="@ != "/"@,
        "!=="@ != "%"@,
        "!=="@ != "+"@,
        "!=="@ != "-"@,
        "<"@ != "<="@,
        "<"@ != ">"@,
        "<"@ != ">="@,
        "<"@ != "*"@,
        "<"@ != "/"@,
        "<"@ != "%"@,
        "<"@ != "+"@,
        "<"@ != "-"@,
        "<="@ != ">"@,
        "<="@ != ">="@,
        "<="@ != "*"@,
        "<="@ != "/"@,
        "<="@ != "%"@,
        "<="@ != "+"@,
        "<="@ != "-"@,
        ">"@ != ">="@,
        ">"@ != "*"@,
        ">"@ != "/"@,
        ">"@ != "%"@,
        ">"@ != "+"@,
        ">"@ != "-"@,
        ">="@ != "*"@,
        ">="@ != "/"@,
        ">="@ != "%"@,
        ">="@ != "+"@,
        ">="@ != "-"@,
        "*"@ != "/"@,
        "*"@ != "%"@,
        "*"@ != "+"@,
        "*"@ != "-"@,
        "/"@ != "%"@,
        "/"@ != "+"@,
        "/"@ != "-"@,
        "%"@ != "+"@,
        "%"@ != "-"@,
        "+"@ != "-"@,
{
    reveal_strlit("==");
    reveal_strlit("!=");
    reveal_strlit("===");
    reveal_strlit("!==");
    reveal_strlit("<");
    reveal_strlit("<=");
    reveal_strlit(">");
    reveal_strlit(">=");
    reveal_strlit("*");
    reveal_strlit("/");
    reveal_strlit("%");
    reveal_strlit("+");
    reveal_strlit("-");
    assert("=="@.len() == 2 && "=="@[0] == '=');
    assert("!="@.len() == 2 && "!="@[0] == '!');
    assert("==="@.len() == 3 && "==="@[0] == '=');
    assert("!=="@.len() == 3 && "!=="@[0] == '!');
    assert("<"@.len() == 1 && "<"@[0] == '<');
    assert("<="@.len() == 2 && "<="@[0] == '<');
    assert(">"@.len() == 1 && ">"@[0] == '>');
    assert(">="@.len() == 2 && ">="@[0] == '>');
    assert("*"@.len() == 1 && "*"@[0] == '*');
    assert("/"@.len() == 1 && "/"@[0] == '/');
    assert("%"@.len() == 1 && "%"@[0] == '%');
    assert("+"@.len() == 1 && "+"@[0] == '+');
    assert("-"@.len() == 1 && "-"@[0] == '-');
}

/// Every comparison and every arithmetic operator is replaced by just the ones of
/// this table; a comparison by truth values as well. Of `+` and `-` only those
/// that join no strings are.
pub proof fn law_binary_operators(s: Seq<char>, t: Tree, ctx: Context)
    requires
        crate::estree::type_of(t) == "BinaryExpression"@,
    ensures
        ({
            let op = crate::estree::text_in(t, "operator"@);
            let span = crate::estree::span_of(t);
            let a = text_of(s, t, "left"@);
            let b = text_of(s, t, "right"@);
            let joins = crate::mutators::is_stringy(crate::estree::node_in(t, "left"@))
                || crate::mutators::is_stringy(crate::estree::node_in(t, "right"@));
            let own = changes(crate::mutators::own(s, t, ctx));
            &&& op == "=="@ ==> own == seq![between("EqualityOperator"@, span, a, "!="@, b)] + truths(span, ctx.role)
            &&& op == "!="@ ==> own == seq![between("EqualityOperator"@, span, a, "=="@, b)] + truths(span, ctx.role)
            &&& op == "==="@ ==> own == seq![between("EqualityOperator"@, span, a, "!=="@, b)] + truths(span, ctx.role)
            &&& op == "!=="@ ==> own == seq![between("EqualityOperator"@, span, a, "==="@, b)] + truths(span, ctx.role)
            &&& op == "<"@ ==> own == seq![between("EqualityOperator"@, span, a, "<="@, b), between("EqualityOperator"@, span, a, ">="@, b)] + truths(span, ctx.role)
            &&& op == "<="@ ==> own == seq![between("EqualityOperator"@, span, a, "<"@, b), between("EqualityOperator"@, span, a, ">"@, b)] + truths(span, ctx.role)
            &&& op == ">"@ ==> own == seq![between("EqualityOperator"@, span, a, ">="@, b), between("EqualityOperator"@, span, a, "<="@, b)] + truths(span, ctx.role)
            &&& op == ">="@ ==> own == seq![between("EqualityOperator"@, span, a, ">"@, b), between("EqualityOperator"@, span, a, "<"@, b)] + truths(span, ctx.role)
            &&& op == "*"@ ==> own == seq![between("ArithmeticOperator"@, span, a, "/"@, b)]
            &&& op == "/"@ ==> own == seq![between("ArithmeticOperator"@, span, a, "*"@, b)]
            &&& op == "%"@ ==> own == seq![between("ArithmeticOperator"@, span, a, "*"@, b)]
            &&& op == "+"@ && !joins ==> own == seq![
                between("ArithmeticOperator"@, span, a, "-"@, b),
            ]
            &&& op == "-"@ && !joins ==> own == seq![
                between("ArithmeticOperator"@, span, a, "+"@, b),
            ]
            &&& (op == "+"@ || op == "-"@) && joins ==> own.len() == 0
            &&& op != "=="@ && op != "!="@ && op != "==="@ && op != "!=="@ && op != "<"@ && op != "<="@ && op != ">"@ && op != ">="@ && op != "*"@ && op != "/"@ && op != "%"@ && op != "+"@ && op != "-"@
                ==> own.len() == 0
        }),
{
    let op = crate::estree::text_in(t, "operator"@);
    let span = crate::estree::span_of(t);
    lemma_own(s, t, ctx);
    lemma_operators();
    if op == "=="@ {
        lemma_binary(s, t, ctx, op, "!="@);
        assert(changes(crate::mutators::own(s, t, ctx)) =~= seq![
            between("EqualityOperator"@, span, text_of(s, t, "left"@), "!="@, text_of(s, t, "right"@)),
        ] + truths(span, ctx.role));
    }
    if op == "!="@ {
        lemma_binary(s, t, ctx, op, "=="@);
        assert(changes(crate::mutators::own(s, t, ctx)) =~= seq![
            between("EqualityOperator"@, span, text_of(s, t, "left"@), "=="@, text_of(s, t, "right"@)),
        ] + truths(span, ctx.role));
    }
    if op == "==="@ {
        lemma_binary(s, t, ctx, op, "!=="@);
        assert(changes(crate::mutators::own(s, t, ctx)) =~= seq![
            between("EqualityOperator"@, span, text_of(s, t, "left"@), "!=="@, text_of(s, t, "right"@)),
        ] + truths(span, ctx.role));
    }
    if op == "!=="@ {
        lemma_binary(s, t, ctx, op, "==="@);
        assert(changes(crate::mutators::own(s, t, ctx)) =~= seq![
            between("EqualityOperator"@, span, text_of(s, t, "left"@), "==="@, text_of(s, t, "right"@)),
        ] + truths(span, ctx.role));
    }
    if op == "<"@ {
        lemma_binary_pair(s, t, ctx, op, "<="@, ">="@);
    }
    if op == "<="@ {
        lemma_binary_pair(s, t, ctx, op, "<"@, ">"@);
    }
    if op == ">"@ {
        lemma_binary_pair(s, t, ctx, op, ">="@, "<="@);
    }
    if op == ">="@ {
        lemma_binary_pair(s, t, ctx, op, ">"@, "<"@);
    }
    if op == "*"@ {
        lemma_binary(s, t, ctx, op, "/"@);
        assert(changes(crate::mutators::own(s, t, ctx)) =~= seq![
            between("ArithmeticOperator"@, span, text_of(s, t, "left"@), "/"@, text_of(s, t, "right"@)),
        ]);
    }
    if op == "/"@ {
        lemma_binary(s, t, ctx, op, "*"@);
        assert(changes(crate::mutators::own(s, t, ctx)) =~= seq![
            between("ArithmeticOperator"@, span, text_of(s, t, "left"@), "*"@, text_of(s, t, "right"@)),
        ]);
    }
    if op == "%"@ {
        lemma_binary(s, t, ctx, op, "*"@);
        assert(changes(crate::mutators::own(s, t, ctx)) =~= seq![
            between("ArithmeticOperator"@, span, text_of(s, t, "left"@), "*"@, text_of(s, t, "right"@)),
        ]);
    }
    let joins = crate::mutators::is_stringy(crate::estree::node_in(t, "left"@))
        || crate::mutators::is_stringy(crate::estree::node_in(t, "right"@));
    if op == "+"@ && !joins {
        lemma_binary(s, t, ctx, op, "-"@);
        assert(changes(crate::mutators::own(s, t, ctx)) =~= seq![
            between("ArithmeticOperator"@, span, text_of(s, t, "left"@), "-"@, text_of(s, t, "right"@)),
        ]);
    }
    if op == "-"@ && !joins {
        lemma_binary(s, t, ctx, op, "+"@);
        assert(changes(crate::mutators::own(s, t, ctx)) =~= seq![
            between("ArithmeticOperator"@, span, text_of(s, t, "left"@), "+"@, text_of(s, t, "right"@)),
        ]);
    }
}

// ---- strings that are joined ----

/// An expression counts as a string where it is a string literal or a template,
/// or joins two operands of which one does.
pub proof fn law_what_joins_strings(t: Tree)
    ensures
        crate::estree::type_of(t) == "Literal"@ ==> (crate::mutators::is_stringy(t) <==> (
        crate::estree::node_in(t, "value"@) is Text)),
        crate::estree::type_of(t) == "TemplateLiteral"@ ==> crate::mutators::is_stringy(t),
        crate::estree::type_of(t) == "BinaryExpression"@ && crate::estree::type_of(
            crate::estree::node_in(t, "left"@),
        ) != "PrivateIdentifier"@ && crate::estree::member(t, "left"@) is Some
            && crate::estree::member(t, "right"@) is Some ==> (crate::mutators::is_stringy(t) <==> (
        crate::mutators::is_stringy(crate::estree::node_in(t, "left"@))
            || crate::mutators::is_stringy(crate::estree::node_in(t, "right"@)))),
        crate::estree::type_of(t) != "Literal"@ && crate::estree::type_of(t) != "TemplateLiteral"@
            && crate::estree::type_of(t) != "BinaryExpression"@ ==> !crate::mutators::is_stringy(t),
{
    reveal_strlit("Literal");
    reveal_strlit("TemplateLiteral");
    reveal_strlit("BinaryExpression");
    assert("Literal"@.len() == 7);
    assert("TemplateLiteral"@.len() == 15);
    assert("BinaryExpression"@.len() == 16);
}

// ---- logical expressions ----

/// What a boolean operand of `&&` or `||` is replaced by; parentheses and type
/// assertions around it are looked through.
pub open spec fn operand_truth(t: Tree, name: Seq<char>, value: Seq<char>) -> Seq<Change> {
    let operand = crate::mutators::inner_of(crate::estree::node_in(t, name));
    if crate::mutators::is_boolean_shaped(operand) {
        seq![
            Change {
                mutator: "ConditionalExpression"@,
                span: crate::estree::span_of(operand),
                text: value,
            },
        ]
    } else {
        Seq::empty()
    }
}

/// The text of an operand, in parentheses where it is a logical expression.
pub open spec fn grouped(s: Seq<char>, t: Tree, name: Seq<char>) -> Seq<char> {
    if crate::estree::type_of(crate::estree::node_in(t, name)) == "LogicalExpression"@ {
        "("@ + text_of(s, t, name) + ")"@
    } else {
        text_of(s, t, name)
    }
}

/// `&&` is replaced by `||`, and `||` and `??` by `&&`. An expression with `&&` or
/// `||` is replaced by truth values as well, and so is each boolean operand, by
/// the one that leaves the other operand to decide.
pub proof fn law_logical_operators(s: Seq<char>, t: Tree, ctx: Context)
    requires
        crate::estree::type_of(t) == "LogicalExpression"@,
    ensures
        ({
            let op = crate::estree::text_in(t, "operator"@);
            let span = crate::estree::span_of(t);
            let a = grouped(s, t, "left"@);
            let b = grouped(s, t, "right"@);
            let own = changes(crate::mutators::own(s, t, ctx));
            &&& op == "&&"@ ==> own == seq![between("LogicalOperator"@, span, a, "||"@, b)]
                + truths(span, ctx.role) + operand_truth(t, "left"@, "true"@) + operand_truth(
                t,
                "right"@,
                "true"@,
            )
            &&& op == "||"@ ==> own == seq![between("LogicalOperator"@, span, a, "&&"@, b)]
                + truths(span, ctx.role) + operand_truth(t, "left"@, "false"@) + operand_truth(
                t,
                "right"@,
                "false"@,
            )
            &&& op == "??"@ ==> own == seq![between("LogicalOperator"@, span, a, "&&"@, b)]
        }),
{
    let op = crate::estree::text_in(t, "operator"@);
    let span = crate::estree::span_of(t);
    let own = changes(crate::mutators::own(s, t, ctx));
    lemma_own(s, t, ctx);
    reveal_strlit("&&");
    reveal_strlit("||");
    reveal_strlit("??");
    assert("&&"@.len() == 2 && "&&"@[0] == '&');
    assert("||"@.len() == 2 && "||"@[0] == '|');
    assert("??"@.len() == 2 && "??"@[0] == '?');
    if op == "&&"@ {
        assert(own =~= seq![
            between("LogicalOperator"@, span, grouped(s, t, "left"@), "||"@, grouped(s, t, "right"@)),
        ] + truths(span, ctx.role) + operand_truth(t, "left"@, "true"@) + operand_truth(
            t,
            "right"@,
            "true"@,
        ));
    }
    if op == "||"@ {
        assert(own =~= seq![
            between("LogicalOperator"@, span, grouped(s, t, "left"@), "&&"@, grouped(s, t, "right"@)),
        ] + truths(span, ctx.role) + operand_truth(t, "left"@, "false"@) + operand_truth(
            t,
            "right"@,
            "false"@,
        ));
    }
    if op == "??"@ {
        assert(own =~= seq![
            between("LogicalOperator"@, span, grouped(s, t, "left"@), "&&"@, grouped(s, t, "right"@)),
        ]);
    }
}

/// What is a truth value by its shape: `&&`, `||` and every comparison.
pub proof fn law_boolean_shapes(t: Tree)
    ensures
        ({
            let op = crate::estree::text_in(t, "operator"@);
            let ty = crate::estree::type_of(t);
            &&& ty == "LogicalExpression"@ && (op == "&&"@ || op == "||"@)
                ==> crate::mutators::is_boolean_shaped(t)
            &&& ty == "LogicalExpression"@ && op == "??"@ ==> !crate::mutators::is_boolean_shaped(t)
            &&& ty == "BinaryExpression"@ ==> (crate::mutators::is_boolean_shaped(t) <==> op == "=="@
                || op == "!="@ || op == "==="@ || op == "!=="@ || op == "<"@ || op == "<="@ || op
                == ">"@ || op == ">="@)
            &&& ty != "LogicalExpression"@ && ty != "BinaryExpression"@
                ==> !crate::mutators::is_boolean_shaped(t)
        }),
{
    reveal_strlit("&&");
    reveal_strlit("||");
    reveal_strlit("??");
    assert("&&"@.len() == 2 && "&&"@[0] == '&');
    assert("||"@.len() == 2 && "||"@[0] == '|');
    assert("??"@.len() == 2 && "??"@[0] == '?');
    reveal_strlit("LogicalExpression");
    reveal_strlit("BinaryExpression");
    assert("LogicalExpression"@.len() == 17);
    assert("BinaryExpression"@.len() == 16);
}

/// Parentheses, type assertions and non-null assertions are looked through, and
/// nothing else is.
pub proof fn law_what_is_looked_through(t: Tree, inner: Tree)
    ensures
        ({
            let ty = crate::estree::type_of(t);
            let wraps = ty == "ParenthesizedExpression"@ || ty == "TSAsExpression"@ || ty
                == "TSSatisfiesExpression"@ || ty == "TSTypeAssertion"@ || ty
                == "TSNonNullExpression"@ || ty == "TSInstantiationExpression"@;
            &&& wraps && crate::estree::member(t, "expression"@) == Some(inner)
                ==> crate::mutators::inner_of(t) == crate::mutators::inner_of(inner)
            &&& !wraps ==> crate::mutators::inner_of(t) == t
        }),
{
}

// ---- unary and update expressions ----

/// `!` and `~` are dropped, and `-` and `+` turned into each other.
pub proof fn law_unary_operators(s: Seq<char>, t: Tree, ctx: Context)
    requires
        crate::estree::type_of(t) == "UnaryExpression"@,
    ensures
        ({
            let op = crate::estree::text_in(t, "operator"@);
            let span = crate::estree::span_of(t);
            let x = text_of(s, t, "argument"@);
            let own = changes(crate::mutators::own(s, t, ctx));
            &&& op == "!"@ ==> own == seq![Change { mutator: "BooleanLiteral"@, span, text: x }]
            &&& op == "-"@ ==> own == seq![
                Change { mutator: "UnaryOperator"@, span, text: "+"@ + x },
            ]
            &&& op == "+"@ ==> own == seq![
                Change { mutator: "UnaryOperator"@, span, text: "-"@ + x },
            ]
            &&& op == "~"@ ==> own == seq![Change { mutator: "UnaryOperator"@, span, text: x }]
            &&& op != "!"@ && op != "-"@ && op != "+"@ && op != "~"@ ==> own.len() == 0
        }),
{
    let op = crate::estree::text_in(t, "operator"@);
    let span = crate::estree::span_of(t);
    let x = text_of(s, t, "argument"@);
    let own = changes(crate::mutators::own(s, t, ctx));
    lemma_own(s, t, ctx);
    reveal_strlit("!");
    reveal_strlit("-");
    reveal_strlit("+");
    reveal_strlit("~");
    assert("!"@.len() == 1 && "!"@[0] == '!');
    assert("-"@.len() == 1 && "-"@[0] == '-');
    assert("+"@.len() == 1 && "+"@[0] == '+');
    assert("~"@.len() == 1 && "~"@[0] == '~');
    if op == "!"@ {
        assert(own =~= seq![Change { mutator: "BooleanLiteral"@, span, text: x }]);
    }
    if op == "-"@ {
        assert(own =~= seq![Change { mutator: "UnaryOperator"@, span, text: "+"@ + x }]);
    }
    if op == "+"@ {
        assert(own =~= seq![Change { mutator: "UnaryOperator"@, span, text: "-"@ + x }]);
    }
    if op == "~"@ {
        assert(own =~= seq![Change { mutator: "UnaryOperator"@, span, text: x }]);
    }
}

proof fn lemma_first_is_replaced(from: Seq<char>, to: Seq<char>, rest: Seq<char>)
    requires
        from.len() > 0,
    ensures
        crate::mutators::operator_replaced(from + rest, from, to, true) == to + rest,
{
    let text = from + rest;
    assert(text.subrange(0, from.len() as int) =~= from);
    assert(crate::text::occurs_at(text, from, 0));
    assert(crate::text::find(text, from) == Some(0int));
    assert(text.take(0) + to + text.skip(from.len() as int) =~= to + rest);
}

proof fn lemma_last_is_replaced(from: Seq<char>, to: Seq<char>, rest: Seq<char>)
    requires
        from.len() > 0,
    ensures
        crate::mutators::operator_replaced(rest + from, from, to, false) == rest + to,
{
    let text = rest + from;
    let at = rest.len() as int;
    assert(text.subrange(at, at + from.len()) =~= from);
    assert(crate::text::occurs_at(text, from, at));
    assert(crate::text::rfind(text, from) == Some(at));
    assert(text.take(at) + to + text.skip(at + from.len()) =~= rest + to);
}

/// `++` and `--` are turned into each other, on the side on which they stand.
pub proof fn law_update_operators(s: Seq<char>, t: Tree, ctx: Context, x: Seq<char>)
    requires
        crate::estree::type_of(t) == "UpdateExpression"@,
    ensures
        ({
            let op = crate::estree::text_in(t, "operator"@);
            let span = crate::estree::span_of(t);
            let text = crate::collect::text_at(s, span);
            let prefix = crate::estree::flag_in(t, "prefix"@);
            let own = changes(crate::mutators::own(s, t, ctx));
            &&& own.len() == 1
            &&& own[0].mutator == "UpdateOperator"@
            &&& own[0].span == span
            &&& op == "++"@ && prefix && text == "++"@ + x ==> own[0].text == "--"@ + x
            &&& op == "--"@ && prefix && text == "--"@ + x ==> own[0].text == "++"@ + x
            &&& op == "++"@ && !prefix && text == x + "++"@ ==> own[0].text == x + "--"@
            &&& op == "--"@ && !prefix && text == x + "--"@ ==> own[0].text == x + "++"@
        }),
{
    lemma_own(s, t, ctx);
    reveal_strlit("++");
    reveal_strlit("--");
    assert("++"@.len() == 2 && "++"@[0] == '+');
    assert("--"@.len() == 2 && "--"@[0] == '-');
    lemma_first_is_replaced("++"@, "--"@, x);
    lemma_first_is_replaced("--"@, "++"@, x);
    lemma_last_is_replaced("++"@, "--"@, x);
    lemma_last_is_replaced("--"@, "++"@, x);
}

/// Every compound assignment is replaced by just the one of this table; `+=` only
/// where it joins no strings. A plain assignment is not replaced.
pub proof fn law_assignment_operators(s: Seq<char>, t: Tree, ctx: Context)
    requires
        crate::estree::type_of(t) == "AssignmentExpression"@,
    ensures
        ({
            let op = crate::estree::text_in(t, "operator"@);
            let span = crate::estree::span_of(t);
            let a = text_of(s, t, "left"@);
            let b = text_of(s, t, "right"@);
            let joins = crate::mutators::is_stringy(crate::estree::node_in(t, "right"@));
            let own = changes(crate::mutators::own(s, t, ctx));
            &&& op == "+="@ && !joins ==> own == seq![
                between("AssignmentOperator"@, span, a, "-="@, b),
            ]
            &&& op == "+="@ && joins ==> own.len() == 0
            &&& op == "-="@ ==> own == seq![between("AssignmentOperator"@, span, a, "+="@, b)]
            &&& op == "*="@ ==> own == seq![between("AssignmentOperator"@, span, a, "/="@, b)]
            &&& op == "/="@ ==> own == seq![between("AssignmentOperator"@, span, a, "*="@, b)]
            &&& op == "%="@ ==> own == seq![between("AssignmentOperator"@, span, a, "*="@, b)]
            &&& op == "<<="@ ==> own == seq![between("AssignmentOperator"@, span, a, ">>="@, b)]
            &&& op == ">>="@ ==> own == seq![between("AssignmentOperator"@, span, a, "<<="@, b)]
            &&& op == "&="@ ==> own == seq![between("AssignmentOperator"@, span, a, "|="@, b)]
            &&& op == "|="@ ==> own == seq![between("AssignmentOperator"@, span, a, "&="@, b)]
            &&& op == "&&="@ ==> own == seq![between("AssignmentOperator"@, span, a, "||="@, b)]
            &&& op == "||="@ ==> own == seq![between("AssignmentOperator"@, span, a, "&&="@, b)]
            &&& op == "??="@ ==> own == seq![between("AssignmentOperator"@, span, a, "&&="@, b)]
            &&& op != "+="@ && op != "-="@ && op != "*="@ && op != "/="@ && op != "%="@ && op != "<<="@ && op != ">>="@ && op != "&="@ && op != "|="@ && op != "&&="@ && op != "||="@ && op != "??="@
                ==> own.len() == 0
        }),
{
    let op = crate::estree::text_in(t, "operator"@);
    let span = crate::estree::span_of(t);
    let a = text_of(s, t, "left"@);
    let b = text_of(s, t, "right"@);
    let own = changes(crate::mutators::own(s, t, ctx));
    lemma_own(s, t, ctx);
    reveal_strlit("+=");
    reveal_strlit("-=");
    reveal_strlit("*=");
    reveal_strlit("/=");
    reveal_strlit("%=");
    reveal_strlit("<<=");
    reveal_strlit(">>=");
    reveal_strlit("&=");
    reveal_strlit("|=");
    reveal_strlit("&&=");
    reveal_strlit("||=");
    reveal_strlit("??=");
    assert("+="@.len() == 2 && "+="@[0] == '+');
    assert("-="@.len() == 2 && "-="@[0] == '-');
    assert("*="@.len() == 2 && "*="@[0] == '*');
    assert("/="@.len() == 2 && "/="@[0] == '/');
    assert("%="@.len() == 2 && "%="@[0] == '%');
    assert("<<="@.len() == 3 && "<<="@[0] == '<');
    assert(">>="@.len() == 3 && ">>="@[0] == '>');
    assert("&="@.len() == 2 && "&="@[0] == '&');
    assert("|="@.len() == 2 && "|="@[0] == '|');
    assert("&&="@.len() == 3 && "&&="@[0] == '&');
    assert("||="@.len() == 3 && "||="@[0] == '|');
    assert("??="@.len() == 3 && "??="@[0] == '?');
    if op == "+="@ && !crate::mutators::is_stringy(crate::estree::node_in(t, "right"@)) {
        assert(own =~= seq![between("AssignmentOperator"@, span, a, "-="@, b)]);
    }
    if op == "-="@ {
        assert(own =~= seq![between("AssignmentOperator"@, span, a, "+="@, b)]);
    }
    if op == "*="@ {
        assert(own =~= seq![between("AssignmentOperator"@, span, a, "/="@, b)]);
    }
    if op == "/="@ {
        assert(own =~= seq![between("AssignmentOperator"@, span, a, "*="@, b)]);
    }
    if op == "%="@ {
        assert(own =~= seq![between("AssignmentOperator"@, span, a, "*="@, b)]);
    }
    if op == "<<="@ {
        assert(own =~= seq![between("AssignmentOperator"@, span, a, ">>="@, b)]);
    }
    if op == ">>="@ {
        assert(own =~= seq![between("AssignmentOperator"@, span, a, "<<="@, b)]);
    }
    if op == "&="@ {
        assert(own =~= seq![between("AssignmentOperator"@, span, a, "|="@, b)]);
    }
    if op == "|="@ {
        assert(own =~= seq![between("AssignmentOperator"@, span, a, "&="@, b)]);
    }
    if op == "&&="@ {
        assert(own =~= seq![between("AssignmentOperator"@, span, a, "||="@, b)]);
    }
    if op == "||="@ {
        assert(own =~= seq![between("AssignmentOperator"@, span, a, "&&="@, b)]);
    }
    if op == "??="@ {
        assert(own =~= seq![between("AssignmentOperator"@, span, a, "&&="@, b)]);
    }
}

// ---- literals ----

/// `true` and `false` are turned into each other, a string into the empty one,
/// and the empty one into a text. A number and `null` are left alone.
pub proof fn law_literals(s: Seq<char>, t: Tree, ctx: Context)
    requires
        crate::estree::type_of(t) == "Literal"@,
        crate::estree::member(t, "regex"@) is None,
    ensures
        ({
            let span = crate::estree::span_of(t);
            let own = changes(crate::mutators::own(s, t, ctx));
            match crate::estree::node_in(t, "value"@) {
                Tree::Flag(value) => own == seq![
                    Change {
                        mutator: "BooleanLiteral"@,
                        span,
                        text: if value {
                            "false"@
                        } else {
                            "true"@
                        },
                    },
                ],
                Tree::Text(value) => own == seq![
                    Change {
                        mutator: "StringLiteral"@,
                        span,
                        text: if value.len() > 0 {
                            "\"\""@
                        } else {
                            "\"Stryker was here!\""@
                        },
                    },
                ],
                _ => own.len() == 0,
            }
        }),
{
    let span = crate::estree::span_of(t);
    let own = changes(crate::mutators::own(s, t, ctx));
    lemma_own(s, t, ctx);
    match crate::estree::node_in(t, "value"@) {
        Tree::Flag(value) => {
            assert(own =~= seq![
                Change {
                    mutator: "BooleanLiteral"@,
                    span,
                    text: if value {
                        "false"@
                    } else {
                        "true"@
                    },
                },
            ]);
        },
        Tree::Text(value) => {
            assert(own =~= seq![
                Change {
                    mutator: "StringLiteral"@,
                    span,
                    text: if value.len() > 0 {
                        "\"\""@
                    } else {
                        "\"Stryker was here!\""@
                    },
                },
            ]);
        },
        _ => {},
    }
}

/// A regular expression is replaced by each of its mutations, and nothing else.
pub proof fn law_regular_expressions(s: Seq<char>, t: Tree, ctx: Context, k: int)
    requires
        crate::estree::type_of(t) == "Literal"@,
        crate::estree::member(t, "regex"@) is Some,
    ensures
        ({
            let span = crate::estree::span_of(t);
            let own = changes(crate::mutators::own(s, t, ctx));
            let mutations = crate::regex_mutations::mutations_of(crate::collect::text_at(s, span));
            &&& own.len() == mutations.len()
            &&& 0 <= k < own.len() ==> own[k] == (Change {
                mutator: "Regex"@,
                span,
                text: mutations[k],
            })
        }),
{
    lemma_own(s, t, ctx);
}

/// A template is replaced by the empty one, and the empty one by a text; one with
/// a tag is left alone.
pub proof fn law_templates(s: Seq<char>, t: Tree, ctx: Context)
    requires
        crate::estree::type_of(t) == "TemplateLiteral"@,
    ensures
        ({
            let span = crate::estree::span_of(t);
            let own = changes(crate::mutators::own(s, t, ctx));
            let quasis = crate::estree::list_in(t, "quasis"@);
            let holds_text = exists|i: int|
                0 <= i < quasis.len() && crate::estree::text_in(
                    crate::estree::node_in(#[trigger] quasis[i], "value"@),
                    "raw"@,
                ).len() > 0;
            let holds_values = crate::estree::list_in(t, "expressions"@).len() > 0;
            &&& ctx.role == Role::Tagged ==> own.len() == 0
            &&& ctx.role != Role::Tagged && (holds_text || holds_values) ==> own == seq![
                Change { mutator: "StringLiteral"@, span, text: "``"@ },
            ]
            &&& ctx.role != Role::Tagged && !holds_text && !holds_values ==> own == seq![
                Change { mutator: "StringLiteral"@, span, text: "`Stryker was here!`"@ },
            ]
        }),
{
    let span = crate::estree::span_of(t);
    let own = changes(crate::mutators::own(s, t, ctx));
    let quasis = crate::estree::list_in(t, "quasis"@);
    lemma_own(s, t, ctx);
    if ctx.role != Role::Tagged {
        if exists|i: int|
            0 <= i < quasis.len() && crate::estree::text_in(
                crate::estree::node_in(#[trigger] quasis[i], "value"@),
                "raw"@,
            ).len() > 0 {
            let i = choose|i: int|
                0 <= i < quasis.len() && crate::estree::text_in(
                    crate::estree::node_in(#[trigger] quasis[i], "value"@),
                    "raw"@,
                ).len() > 0;
            assert(!crate::mutators::is_empty_quasi(quasis[i]));
        }
        if crate::mutators::is_empty_template(t) {
            assert(own =~= seq![
                Change { mutator: "StringLiteral"@, span, text: "`Stryker was here!`"@ },
            ]);
        } else {
            assert(own =~= seq![Change { mutator: "StringLiteral"@, span, text: "``"@ }]);
        }
    }
}

/// An object or array with contents is emptied, and an empty array is filled.
pub proof fn law_objects_and_arrays(s: Seq<char>, t: Tree, ctx: Context)
    ensures
        ({
            let ty = crate::estree::type_of(t);
            let span = crate::estree::span_of(t);
            let own = changes(crate::mutators::own(s, t, ctx));
            let properties = crate::estree::list_in(t, "properties"@).len();
            let elements = crate::estree::list_in(t, "elements"@).len();
            &&& ty == "ObjectExpression"@ && properties > 0 ==> own == seq![
                Change { mutator: "ObjectLiteral"@, span, text: "{}"@ },
            ]
            &&& ty == "ObjectExpression"@ && properties == 0 ==> own.len() == 0
            &&& ty == "ArrayExpression"@ && elements > 0 ==> own == seq![
                Change { mutator: "ArrayDeclaration"@, span, text: "[]"@ },
            ]
            &&& ty == "ArrayExpression"@ && elements == 0 ==> own == seq![
                Change { mutator: "ArrayDeclaration"@, span, text: "[\"Stryker was here\"]"@ },
            ]
        }),
{
    let ty = crate::estree::type_of(t);
    let span = crate::estree::span_of(t);
    let own = changes(crate::mutators::own(s, t, ctx));
    lemma_own(s, t, ctx);
    if ty == "ObjectExpression"@ && crate::estree::list_in(t, "properties"@).len() > 0 {
        assert(own =~= seq![Change { mutator: "ObjectLiteral"@, span, text: "{}"@ }]);
    }
    if ty == "ArrayExpression"@ && crate::estree::list_in(t, "elements"@).len() > 0 {
        assert(own =~= seq![Change { mutator: "ArrayDeclaration"@, span, text: "[]"@ }]);
    }
    if ty == "ArrayExpression"@ && crate::estree::list_in(t, "elements"@).len() == 0 {
        assert(own =~= seq![
            Change { mutator: "ArrayDeclaration"@, span, text: "[\"Stryker was here\"]"@ },
        ]);
    }
}

/// An arrow function whose body is an expression gives `undefined` instead; one
/// that does so already, or that has a block, is left alone.
pub proof fn law_arrow_functions(s: Seq<char>, t: Tree, ctx: Context)
    requires
        crate::estree::type_of(t) == "ArrowFunctionExpression"@,
    ensures
        ({
            let own = changes(crate::mutators::own(s, t, ctx));
            let short = crate::estree::flag_in(t, "expression"@);
            &&& short && text_of(s, t, "body"@) != "undefined"@ ==> own == seq![
                Change {
                    mutator: "ArrowFunction"@,
                    span: crate::estree::span_of(t),
                    text: "() => undefined"@,
                },
            ]
            &&& !short || text_of(s, t, "body"@) == "undefined"@ ==> own.len() == 0
        }),
{
    let own = changes(crate::mutators::own(s, t, ctx));
    lemma_own(s, t, ctx);
    if crate::estree::flag_in(t, "expression"@) && text_of(s, t, "body"@) != "undefined"@ {
        assert(own =~= seq![
            Change {
                mutator: "ArrowFunction"@,
                span: crate::estree::span_of(t),
                text: "() => undefined"@,
            },
        ]);
    }
}

// ---- statements ----

/// The test of an `if` is replaced by both truth values, and that of a loop by
/// `false` alone; a loop without a test is left alone.
pub proof fn law_tests_of_statements(s: Seq<char>, t: Tree, ctx: Context)
    ensures
        ({
            let ty = crate::estree::type_of(t);
            let test = crate::estree::node_in(t, "test"@);
            let span = crate::estree::span_of(test);
            let own = changes(crate::mutators::own(s, t, ctx));
            let loops = ty == "WhileStatement"@ || ty == "DoWhileStatement"@ || ty
                == "ForStatement"@;
            &&& ty == "IfStatement"@ ==> own == seq![
                Change { mutator: "ConditionalExpression"@, span, text: "true"@ },
                Change { mutator: "ConditionalExpression"@, span, text: "false"@ },
            ]
            &&& loops && (test is Object) ==> own == seq![
                Change { mutator: "ConditionalExpression"@, span, text: "false"@ },
            ]
            &&& loops && !(test is Object) ==> own.len() == 0
        }),
{
    let ty = crate::estree::type_of(t);
    let test = crate::estree::node_in(t, "test"@);
    let span = crate::estree::span_of(test);
    let own = changes(crate::mutators::own(s, t, ctx));
    lemma_own(s, t, ctx);
    if ty == "IfStatement"@ {
        assert(own =~= seq![
            Change { mutator: "ConditionalExpression"@, span, text: "true"@ },
            Change { mutator: "ConditionalExpression"@, span, text: "false"@ },
        ]);
    }
    if (ty == "WhileStatement"@ || ty == "DoWhileStatement"@ || ty == "ForStatement"@) && (
    test is Object) {
        assert(own =~= seq![Change { mutator: "ConditionalExpression"@, span, text: "false"@ }]);
    }
}

/// A case with statements loses them: what is left is the text before the first
/// one, without the white space behind it. A case without is left alone.
pub proof fn law_cases(s: Seq<char>, t: Tree, ctx: Context)
    requires
        crate::estree::type_of(t) == "SwitchCase"@,
    ensures
        ({
            let body = crate::estree::list_in(t, "consequent"@);
            let own = crate::mutators::own(s, t, ctx);
            let start = crate::estree::span_of(t).start;
            let first = crate::estree::span_of(body[0]).start;
            let end = crate::estree::span_of(body[body.len() - 1]).end;
            &&& body.len() == 0 ==> own.len() == 0
            &&& body.len() > 0 ==> own.len() == 1 && own[0].mutator == "ConditionalExpression"@
                && own[0].sub_span == (Span { start, end }) && own[0].placement
                == (Placement::Statements { span: Span { start: first, end } }) && own[0].replacement
                == crate::text::trimmed_back(
                crate::collect::text_at(s, Span { start, end: first }),
            )
        }),
{
    lemma_own(s, t, ctx);
}

/// A block with statements is emptied, but for that of a constructor that calls
/// `super`, and for the body of a function with a directive or without braces.
pub proof fn law_blocks(s: Seq<char>, t: Tree, ctx: Context)
    requires
        crate::estree::type_of(t) == "BlockStatement"@,
    ensures
        ({
            let body = crate::estree::list_in(t, "body"@);
            let span = crate::estree::span_of(t);
            let own = crate::mutators::own(s, t, ctx);
            let text = crate::collect::text_at(s, span);
            let directive = exists|i: int|
                0 <= i < body.len() && crate::estree::member(
                    #[trigger] body[i],
                    "directive"@,
                ) is Some;
            let emptied = body.len() > 0 && ctx.role != Role::ConstructorBody && (ctx.role
                != Role::Body || (!directive && text.len() > 0 && text[0] == '{'));
            &&& emptied ==> own == seq![
                ProposalView {
                    mutator: "BlockStatement"@,
                    placement: Placement::BlockBody { block: span },
                    sub_span: span,
                    replacement: "{}"@,
                },
            ]
            &&& !emptied ==> own.len() == 0
        }),
{
    let body = crate::estree::list_in(t, "body"@);
    let text = crate::collect::text_at(s, crate::estree::span_of(t));
    lemma_own(s, t, ctx);
    reveal_strlit("{");
    assert("{"@.len() == 1 && "{"@[0] == '{');
    if crate::text::begins(text, "{"@) {
        assert(text.subrange(0, 1)[0] == '{');
    }
    if text.len() > 0 && text[0] == '{' {
        assert(text.subrange(0, 1) =~= "{"@);
    }
}

// ---- members and calls ----

/// An optional member access is made plain; a plain one is left alone.
pub proof fn law_optional_members(s: Seq<char>, t: Tree, ctx: Context)
    requires
        crate::estree::type_of(t) == "MemberExpression"@,
    ensures
        ({
            let span = crate::estree::span_of(t);
            let own = changes(crate::mutators::own(s, t, ctx));
            let optional = crate::estree::flag_in(t, "optional"@);
            let computed = crate::estree::flag_in(t, "computed"@);
            let property = crate::estree::node_in(t, "property"@);
            &&& !optional ==> own.len() == 0
            &&& optional && computed ==> own == seq![
                Change {
                    mutator: "OptionalChaining"@,
                    span,
                    text: text_of(s, t, "object"@) + "["@ + text_of(s, t, "property"@) + "]"@,
                },
            ]
            &&& optional && !computed && crate::estree::type_of(property) == "Identifier"@
                ==> own == seq![
                Change {
                    mutator: "OptionalChaining"@,
                    span,
                    text: text_of(s, t, "object"@) + "."@ + crate::estree::text_in(
                        property,
                        "name"@,
                    ),
                },
            ]
        }),
{
    let span = crate::estree::span_of(t);
    let own = changes(crate::mutators::own(s, t, ctx));
    let property = crate::estree::node_in(t, "property"@);
    lemma_own(s, t, ctx);
    if crate::estree::flag_in(t, "optional"@) {
        if crate::estree::flag_in(t, "computed"@) {
            assert(own =~= seq![
                Change {
                    mutator: "OptionalChaining"@,
                    span,
                    text: text_of(s, t, "object"@) + "["@ + text_of(s, t, "property"@) + "]"@,
                },
            ]);
        } else if crate::estree::type_of(property) == "Identifier"@ {
            assert(own =~= seq![
                Change {
                    mutator: "OptionalChaining"@,
                    span,
                    text: text_of(s, t, "object"@) + "."@ + crate::estree::text_in(
                        property,
                        "name"@,
                    ),
                },
            ]);
        }
    }
}

/// A call of `require` or of `Symbol` is left alone.
pub proof fn law_calls_left_alone(s: Seq<char>, t: Tree, ctx: Context)
    requires
        crate::estree::type_of(t) == "CallExpression"@,
        crate::estree::type_of(crate::estree::node_in(t, "callee"@)) == "Identifier"@,
        crate::estree::text_in(crate::estree::node_in(t, "callee"@), "name"@) == "require"@
            || crate::estree::text_in(crate::estree::node_in(t, "callee"@), "name"@) == "Symbol"@,
    ensures
        crate::mutators::own(s, t, ctx).len() == 0,
        crate::walk::children_of(s, t, ctx).len() == 0,
{
    lemma_own(s, t, ctx);
    assert forall|field: Seq<char>| #[trigger]
        crate::walk::context_of(s, t, field, ctx) is None by {}
    lemma_no_children(s, t, crate::walk::fields_of(crate::estree::type_of(t)), ctx);
}

proof fn lemma_no_children(s: Seq<char>, t: Tree, fields: Seq<Seq<char>>, ctx: Context)
    requires
        forall|field: Seq<char>| #[trigger] crate::walk::context_of(s, t, field, ctx) is None,
    ensures
        crate::walk::children_in(s, t, fields, ctx).len() == 0,
    decreases fields.len(),
{
    if fields.len() > 0 {
        lemma_no_children(s, t, fields.drop_last(), ctx);
    }
}

/// An optional call is made plain: its first `?.` behind the callee is dropped.
pub proof fn law_optional_calls(
    s: Seq<char>,
    t: Tree,
    ctx: Context,
    before: Seq<char>,
    after: Seq<char>,
)
    requires
        crate::estree::type_of(t) == "CallExpression"@,
        crate::estree::flag_in(t, "optional"@),
        !crate::walk::is_literal_call(t),
        ({
            let at = crate::estree::span_of(crate::estree::node_in(t, "callee"@)).end;
            let tail = crate::collect::text_at(s, Span { start: at, end: crate::estree::span_of(t).end });
            tail == before + "?."@ + after && !crate::text::has(before + "?"@, "?."@)
        }),
    ensures
        ({
            let span = crate::estree::span_of(t);
            let at = crate::estree::span_of(crate::estree::node_in(t, "callee"@)).end;
            let own = changes(crate::mutators::own(s, t, ctx));
            own.len() > 0 && own[0] == (Change {
                mutator: "OptionalChaining"@,
                span,
                text: crate::collect::text_at(s, Span { start: span.start, end: at }) + before
                    + after,
            })
        }),
{
    lemma_own(s, t, ctx);
    reveal_strlit("?.");
    reveal_strlit("?");
    assert("?."@.len() == 2 && "?."@[0] == '?' && "?."@[1] == '.');
    assert("?"@.len() == 1 && "?"@[0] == '?');
    let tail = before + "?."@ + after;
    let at = before.len() as int;
    let short = before + "?"@;
    assert(tail.subrange(at, at + 2) =~= "?."@);
    assert(crate::text::occurs_at(tail, "?."@, at));
    crate::text::lemma_find_from(tail, "?."@, 0);
    crate::text::lemma_find_from(short, "?."@, 0);
    let p = crate::text::find(tail, "?."@)->0;
    if p < at {
        assert(short.subrange(p, p + 2) =~= tail.subrange(p, p + 2));
        assert(crate::text::occurs_at(short, "?."@, p));
    }
    assert(p == at);
    assert(tail.take(at) =~= before);
    assert(tail.skip(at + 2) =~= after);
}

/// What puts another method into a call.
pub open spec fn renamed(s: Seq<char>, t: Tree, name: Seq<char>) -> Change {
    let span = crate::estree::span_of(t);
    let at = crate::estree::span_of(
        crate::estree::node_in(crate::estree::node_in(t, "callee"@), "property"@),
    );
    Change {
        mutator: "MethodExpression"@,
        span,
        text: crate::collect::text_at(s, Span { start: span.start, end: at.start }) + name
            + crate::collect::text_at(s, Span { start: at.end, end: span.end }),
    }
}

proof fn lemma_method(s: Seq<char>, t: Tree, ctx: Context, name: Seq<char>)
    requires
        crate::estree::type_of(t) == "CallExpression"@,
        crate::walk::is_static_member(crate::estree::node_in(t, "callee"@)),
        !crate::estree::flag_in(t, "optional"@),
        crate::estree::text_in(
            crate::estree::node_in(crate::estree::node_in(t, "callee"@), "property"@),
            "name"@,
        ) == name,
    ensures
        ({
            let own = changes(crate::mutators::own(s, t, ctx));
            &&& crate::mutators::method_swap(name) matches Some(other) ==> own == seq![
                renamed(s, t, other),
            ]
            &&& crate::mutators::method_swap(name) is None && crate::mutators::is_removable(name)
                ==> own == seq![
                Change {
                    mutator: "MethodExpression"@,
                    span: crate::estree::span_of(t),
                    text: text_of(s, crate::estree::node_in(t, "callee"@), "object"@),
                },
            ]
            &&& crate::mutators::method_swap(name) is None && !crate::mutators::is_removable(name)
                ==> own.len() == 0
        }),
{
    let own = changes(crate::mutators::own(s, t, ctx));
    lemma_own(s, t, ctx);
    reveal_strlit("MemberExpression");
    reveal_strlit("Identifier");
    assert("MemberExpression"@.len() == 16);
    assert("Identifier"@.len() == 10);
    if let Some(other) = crate::mutators::method_swap(name) {
        assert(own =~= seq![renamed(s, t, other)]);
    } else if crate::mutators::is_removable(name) {
        assert(own =~= seq![
            Change {
                mutator: "MethodExpression"@,
                span: crate::estree::span_of(t),
                text: text_of(s, crate::estree::node_in(t, "callee"@), "object"@),
            },
        ]);
    }
}

/// A call of a method of this table calls its counterpart instead, one that only
/// trims, cuts, sorts or filters is dropped, and any other one is left alone.
pub proof fn law_methods(s: Seq<char>, t: Tree, ctx: Context)
    requires
        crate::estree::type_of(t) == "CallExpression"@,
        crate::estree::type_of(crate::estree::node_in(t, "callee"@)) == "MemberExpression"@,
        !crate::estree::flag_in(crate::estree::node_in(t, "callee"@), "computed"@),
        crate::estree::type_of(
            crate::estree::node_in(crate::estree::node_in(t, "callee"@), "property"@),
        ) == "Identifier"@,
        !crate::estree::flag_in(t, "optional"@),
    ensures
        ({
            let name = crate::estree::text_in(
                crate::estree::node_in(crate::estree::node_in(t, "callee"@), "property"@),
                "name"@,
            );
            let own = changes(crate::mutators::own(s, t, ctx));
            let dropped = name == "trim"@ || name == "substr"@ || name == "substring"@ || name == "sort"@ || name == "reverse"@ || name == "filter"@ || name == "slice"@ || name == "charAt"@;
            &&& name == "endsWith"@ ==> own == seq![renamed(s, t, "startsWith"@)]
            &&& name == "startsWith"@ ==> own == seq![renamed(s, t, "endsWith"@)]
            &&& name == "toUpperCase"@ ==> own == seq![renamed(s, t, "toLowerCase"@)]
            &&& name == "toLowerCase"@ ==> own == seq![renamed(s, t, "toUpperCase"@)]
            &&& name == "toLocaleUpperCase"@ ==> own == seq![renamed(s, t, "toLocaleLowerCase"@)]
            &&& name == "toLocaleLowerCase"@ ==> own == seq![renamed(s, t, "toLocaleUpperCase"@)]
            &&& name == "trimStart"@ ==> own == seq![renamed(s, t, "trimEnd"@)]
            &&& name == "trimEnd"@ ==> own == seq![renamed(s, t, "trimStart"@)]
            &&& name == "some"@ ==> own == seq![renamed(s, t, "every"@)]
            &&& name == "every"@ ==> own == seq![renamed(s, t, "some"@)]
            &&& name == "min"@ ==> own == seq![renamed(s, t, "max"@)]
            &&& name == "max"@ ==> own == seq![renamed(s, t, "min"@)]
            &&& dropped ==> own == seq![
                Change {
                    mutator: "MethodExpression"@,
                    span: crate::estree::span_of(t),
                    text: text_of(s, crate::estree::node_in(t, "callee"@), "object"@),
                },
            ]
            &&& !dropped && name != "endsWith"@ && name != "startsWith"@ && name != "toUpperCase"@ && name != "toLowerCase"@ && name != "toLocaleUpperCase"@ && name != "toLocaleLowerCase"@ && name != "trimStart"@ && name != "trimEnd"@ && name != "some"@ && name != "every"@ && name != "min"@ && name != "max"@
                ==> own.len() == 0
        }),
{
    let name = crate::estree::text_in(
        crate::estree::node_in(crate::estree::node_in(t, "callee"@), "property"@),
        "name"@,
    );
    reveal_strlit("endsWith");
    reveal_strlit("startsWith");
    reveal_strlit("toUpperCase");
    reveal_strlit("toLowerCase");
    reveal_strlit("toLocaleUpperCase");
    reveal_strlit("toLocaleLowerCase");
    reveal_strlit("trimStart");
    reveal_strlit("trimEnd");
    reveal_strlit("some");
    reveal_strlit("every");
    reveal_strlit("min");
    reveal_strlit("max");
    reveal_strlit("trim");
    reveal_strlit("substr");
    reveal_strlit("substring");
    reveal_strlit("sort");
    reveal_strlit("reverse");
    reveal_strlit("filter");
    reveal_strlit("slice");
    reveal_strlit("charAt");
    assert("endsWith"@.len() == 8);
    assert("startsWith"@.len() == 10);
    assert("toUpperCase"@.len() == 11 && "toUpperCase"@[2] == 'U');
    assert("toLowerCase"@.len() == 11 && "toLowerCase"@[2] == 'L');
    assert("toLocaleUpperCase"@.len() == 17 && "toLocaleUpperCase"@[8] == 'U');
    assert("toLocaleLowerCase"@.len() == 17 && "toLocaleLowerCase"@[8] == 'L');
    assert("trimStart"@.len() == 9 && "trimStart"@[0] == 't');
    assert("trimEnd"@.len() == 7 && "trimEnd"@[0] == 't');
    assert("some"@.len() == 4 && "some"@[0] == 's' && "some"@[2] == 'm');
    assert("every"@.len() == 5 && "every"@[0] == 'e');
    assert("min"@.len() == 3 && "min"@[1] == 'i');
    assert("max"@.len() == 3 && "max"@[1] == 'a');
    assert("trim"@.len() == 4 && "trim"@[0] == 't');
    assert("substr"@.len() == 6 && "substr"@[0] == 's');
    assert("substring"@.len() == 9 && "substring"@[0] == 's');
    assert("sort"@.len() == 4 && "sort"@[0] == 's' && "sort"@[2] == 'r');
    assert("reverse"@.len() == 7 && "reverse"@[0] == 'r');
    assert("filter"@.len() == 6 && "filter"@[0] == 'f');
    assert("slice"@.len() == 5 && "slice"@[0] == 's');
    assert("charAt"@.len() == 6 && "charAt"@[0] == 'c');
    lemma_method(s, t, ctx, name);
}

// ---- where the switch goes ----

/// The switch of a mutant goes where it takes in what the mutant replaces: at the
/// member and call chain on whose spine it is, and otherwise at the replaced
/// expression itself.
pub proof fn law_where_switches_go(s: Seq<char>, t: Tree, ctx: Context, k: int)
    requires
        0 <= k < crate::mutators::own(s, t, ctx).len(),
    ensures
        ({
            let p = crate::mutators::own(s, t, ctx)[k];
            let ty = crate::estree::type_of(t);
            let root = match ctx.chain {
                Some(root) => root,
                None => crate::estree::span_of(t),
            };
            let chained = ctx.chain is Some || ty == "CallExpression"@ || ty == "MemberExpression"@;
            &&& ty != "BlockStatement"@ && ty != "SwitchCase"@ ==> p.placement is Expression
            &&& (p.placement matches Placement::Expression(at) ==> (if chained && root.start
                <= p.sub_span.start && root.end >= p.sub_span.end {
                at == root
            } else {
                at == p.sub_span
            }))
        }),
{
    lemma_own(s, t, ctx);
    let ty = crate::estree::type_of(t);
    reveal_strlit("CallExpression");
    reveal_strlit("MemberExpression");
    reveal_strlit("BlockStatement");
    reveal_strlit("SwitchCase");
    assert("CallExpression"@.len() == 14 && "CallExpression"@[0] == 'C');
    assert("MemberExpression"@.len() == 16);
    assert("BlockStatement"@.len() == 14 && "BlockStatement"@[0] == 'B');
    assert("SwitchCase"@.len() == 10);
    if ty == "BinaryExpression"@ {
        lemma_binary_placed(s, t, ctx, k);
    } else if ty == "LogicalExpression"@ {
        lemma_logical_placed(s, t, ctx, k);
    }
}

/// Whether the switch of a proposal goes where `placed_at` has it.
spec fn well_placed(p: ProposalView, chain: Option<Span>) -> bool {
    p.placement == crate::mutators::placed_at(chain, p.sub_span)
}

proof fn lemma_binary_placed(s: Seq<char>, t: Tree, ctx: Context, k: int)
    requires
        0 <= k < crate::mutators::binary_mutants(s, t, ctx).len(),
    ensures
        well_placed(crate::mutators::binary_mutants(s, t, ctx)[k], ctx.chain),
{
}

proof fn lemma_logical_placed(s: Seq<char>, t: Tree, ctx: Context, k: int)
    requires
        0 <= k < crate::mutators::logical_mutants(s, t, ctx).len(),
    ensures
        well_placed(crate::mutators::logical_mutants(s, t, ctx)[k], ctx.chain),
{
}

} // verus!
