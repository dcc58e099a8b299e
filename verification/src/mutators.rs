//! The mutators: which mutants a single node of the syntax tree gives rise to.
use vstd::prelude::*;

use crate::collect::read_at;
use crate::collect::Context;
use crate::collect::Placement;
use crate::collect::Proposal;
use crate::collect::ProposalView;
use crate::collect::Role;
use crate::estree::get_flag;
use crate::estree::get_list;
use crate::estree::get_member_span;
use crate::estree::get_member_type;
use crate::estree::get_span;
use crate::estree::get_text;
use crate::estree::get_type;
use crate::estree::json_flag;
use crate::estree::json_is_object;
use crate::estree::json_member;
use crate::estree::json_text;
use crate::estree::Span;
use crate::regex_mutations::regex_mutations;
use crate::source::Source;
use crate::text::begins_with;
use crate::text::chars_of;
use crate::text::concat2;
use crate::text::concat3;
use crate::text::copy_text;
use crate::text::same;
use crate::text::text_of;
use crate::text::trim_end;
use crate::walk::chain_of;
use crate::walk::get_member_text;
use crate::walk::literal_call;
use crate::walk::static_member;
use crate::walk::wrapper;

verus! {

/// Where the switch of an expression at `span` goes: at the chain whose spine
/// it is on, else at the expression.
pub open spec fn placed_at(chain: Option<Span>, span: Span) -> Placement {
    match chain {
        Some(root) => if root.start <= span.start && root.end >= span.end {
            Placement::Expression(root)
        } else {
            Placement::Expression(span)
        },
        None => Placement::Expression(span),
    }
}

/// The mutant that replaces the whole expression at `span`.
pub open spec fn whole(
    chain: Option<Span>,
    mutator: Seq<char>,
    span: Span,
    replacement: Seq<char>,
) -> ProposalView {
    ProposalView { mutator, placement: placed_at(chain, span), sub_span: span, replacement }
}

/// Proposes to replace the whole expression at `span`.
fn push_whole(
    out: &mut Vec<Proposal>,
    chain: Option<Span>,
    mutator: &'static str,
    span: Span,
    replacement: String,
)
    ensures
        crate::collect::proposal_views(final(out)@) == crate::collect::proposal_views(
            old(out)@,
        ).push(whole(chain, mutator@, span, replacement@)),
{
    let placement = match chain {
        Some(root) => if root.start <= span.start && root.end >= span.end {
            Placement::Expression(root)
        } else {
            Placement::Expression(span)
        },
        None => Placement::Expression(span),
    };
    push_proposal(out, Proposal { mutator, placement, sub_span: span, replacement });
}

fn push_proposal(out: &mut Vec<Proposal>, p: Proposal)
    ensures
        crate::collect::proposal_views(final(out)@) == crate::collect::proposal_views(
            old(out)@,
        ).push(p@),
{
    let ghost before = out@;
    out.push(p);
    proof {
        assert(crate::collect::proposal_views(out@) =~= crate::collect::proposal_views(
            before,
        ).push(p@));
    }
}

// ---- tests ----

/// Both truth values for a test, only `false` where `true` would loop forever.
pub open spec fn bool_pair(chain: Option<Span>, span: Span, no_true: bool) -> Seq<ProposalView> {
    (if no_true {
        Seq::empty()
    } else {
        seq![whole(chain, "ConditionalExpression"@, span, "true"@)]
    }) + seq![whole(chain, "ConditionalExpression"@, span, "false"@)]
}

fn push_bool_pair(out: &mut Vec<Proposal>, chain: Option<Span>, span: Span, no_true: bool)
    ensures
        crate::collect::proposal_views(final(out)@) == crate::collect::proposal_views(old(out)@)
            + bool_pair(chain, span, no_true),
{
    let ghost before = crate::collect::proposal_views(out@);
    if !no_true {
        push_whole(out, chain, "ConditionalExpression", span, copy_text("true"));
    }
    push_whole(out, chain, "ConditionalExpression", span, copy_text("false"));
    proof {
        assert(crate::collect::proposal_views(out@) =~= before + bool_pair(chain, span, no_true));
    }
}

// ---- operators ----

/// A comparison gives a truth value.
pub open spec fn is_comparison(op: Seq<char>) -> bool {
    op == "=="@ || op == "!="@ || op == "==="@ || op == "!=="@ || op == "<"@ || op == "<="@ || op
        == ">"@ || op == ">="@
}

fn comparison(op: &str) -> (r: bool)
    ensures
        r == is_comparison(op@),
{
    same(op, "==") || same(op, "!=") || same(op, "===") || same(op, "!==") || same(op, "<") || same(
        op,
        "<=",
    ) || same(op, ">") || same(op, ">=")
}

/// The operators that take the place of a binary operator.
pub open spec fn binary_swaps(op: Seq<char>) -> Seq<Seq<char>> {
    if op == "=="@ {
        seq!["!="@]
    } else if op == "!="@ {
        seq!["=="@]
    } else if op == "==="@ {
        seq!["!=="@]
    } else if op == "!=="@ {
        seq!["==="@]
    } else if op == "<"@ {
        seq!["<="@, ">="@]
    } else if op == "<="@ {
        seq!["<"@, ">"@]
    } else if op == ">"@ {
        seq![">="@, "<="@]
    } else if op == ">="@ {
        seq![">"@, "<"@]
    } else if op == "+"@ {
        seq!["-"@]
    } else if op == "-"@ {
        seq!["+"@]
    } else if op == "*"@ {
        seq!["/"@]
    } else if op == "/"@ || op == "%"@ {
        seq!["*"@]
    } else {
        Seq::empty()
    }
}

fn swaps(op: &str) -> (r: Vec<String>)
    ensures
        crate::text::texts(r@) == binary_swaps(op@),
{
    if same(op, "==") {
        single("!=")
    } else if same(op, "!=") {
        single("==")
    } else if same(op, "===") {
        single("!==")
    } else if same(op, "!==") {
        single("===")
    } else if same(op, "<") {
        pair("<=", ">=")
    } else if same(op, "<=") {
        pair("<", ">")
    } else if same(op, ">") {
        pair(">=", "<=")
    } else if same(op, ">=") {
        pair(">", "<")
    } else if same(op, "+") {
        single("-")
    } else if same(op, "-") {
        single("+")
    } else if same(op, "*") {
        single("/")
    } else if same(op, "/") || same(op, "%") {
        single("*")
    } else {
        let r: Vec<String> = Vec::new();
        proof {
            assert(crate::text::texts(r@) =~= Seq::<Seq<char>>::empty());
        }
        r
    }
}

fn single(a: &str) -> (r: Vec<String>)
    ensures
        crate::text::texts(r@) == seq![a@],
{
    let mut r: Vec<String> = Vec::new();
    r.push(copy_text(a));
    proof {
        assert(crate::text::texts(r@) =~= seq![a@]);
    }
    r
}

fn pair(a: &str, b: &str) -> (r: Vec<String>)
    ensures
        crate::text::texts(r@) == seq![a@, b@],
{
    let mut r: Vec<String> = Vec::new();
    r.push(copy_text(a));
    r.push(copy_text(b));
    proof {
        assert(crate::text::texts(r@) =~= seq![a@, b@]);
    }
    r
}

/// A string literal.
pub open spec fn is_string(t: crate::estree::Tree) -> bool {
    crate::estree::type_of(t) == "Literal"@ && (crate::estree::node_in(t, "value"@) is Text)
}

fn string(node: &serde_json::Value) -> (r: bool)
    ensures
        r == is_string(crate::estree::json_tree(*node)),
{
    same(get_type(node), "Literal") && (match json_member(node, "value") {
        Some(value) => json_text(value).is_some(),
        None => false,
    })
}

/// Literally a string, or a binary expression with a string among its operands:
/// `+` on strings is concatenation, which arithmetic mutants only turn to noise.
pub open spec fn is_stringy(t: crate::estree::Tree) -> bool
    decreases t,
{
    if is_string(t) || crate::estree::type_of(t) == "TemplateLiteral"@ {
        true
    } else if crate::estree::type_of(t) == "BinaryExpression"@ && crate::estree::type_of(
        crate::estree::node_in(t, "left"@),
    ) != "PrivateIdentifier"@ {
        match (crate::estree::member(t, "left"@), crate::estree::member(t, "right"@)) {
            (Some(left), Some(right)) => {
                proof {
                    crate::walk::lemma_member_below(t, "left"@);
                    crate::walk::lemma_member_below(t, "right"@);
                }
                is_stringy(left) || is_stringy(right)
            },
            _ => false,
        }
    } else {
        false
    }
}

fn stringy(node: &serde_json::Value) -> (r: bool)
    ensures
        r == is_stringy(crate::estree::json_tree(*node)),
    decreases crate::estree::json_tree(*node),
{
    if string(node) || same(get_type(node), "TemplateLiteral") {
        true
    } else if same(get_type(node), "BinaryExpression") && !same(
        get_member_type(node, "left"),
        "PrivateIdentifier",
    ) {
        match (json_member(node, "left"), json_member(node, "right")) {
            (Some(left), Some(right)) => {
                proof {
                    crate::walk::lemma_member_below(crate::estree::json_tree(*node), "left"@);
                    crate::walk::lemma_member_below(crate::estree::json_tree(*node), "right"@);
                }
                stringy(left) || stringy(right)
            },
            _ => false,
        }
    } else {
        false
    }
}

fn member_stringy(node: &serde_json::Value, name: &str) -> (r: bool)
    ensures
        r == is_stringy(crate::estree::node_in(crate::estree::json_tree(*node), name@)),
{
    match json_member(node, name) {
        Some(found) => stringy(found),
        None => {
            proof {
                reveal_strlit("Literal");
                reveal_strlit("TemplateLiteral");
                reveal_strlit("BinaryExpression");
                assert("Literal"@.len() > 0);
                assert("TemplateLiteral"@.len() > 0);
                assert("BinaryExpression"@.len() > 0);
            }
            false
        },
    }
}

/// The text of a member of a node.
pub open spec fn part(s: Seq<char>, t: crate::estree::Tree, name: Seq<char>) -> Seq<char> {
    crate::collect::text_at(s, crate::estree::span_of(crate::estree::node_in(t, name)))
}

fn read_part(source: &Source, node: &serde_json::Value, name: &str) -> (r: String)
    ensures
        r@ == part(source.text(), crate::estree::json_tree(*node), name@),
{
    read_at(source, get_member_span(node, name))
}

/// Two operands with an operator between them.
pub open spec fn infix(left: Seq<char>, op: Seq<char>, right: Seq<char>) -> Seq<char> {
    left + " "@ + op + " "@ + right
}

fn write_infix(left: &str, op: &str, right: &str) -> (r: String)
    ensures
        r@ == infix(left@, op@, right@),
{
    let mut out = copy_text(left);
    out.append(" ");
    out.append(op);
    out.append(" ");
    out.append(right);
    out
}

/// The mutants that put other operators between two operands.
pub open spec fn swapped(
    chain: Option<Span>,
    mutator: Seq<char>,
    span: Span,
    left: Seq<char>,
    right: Seq<char>,
    ops: Seq<Seq<char>>,
) -> Seq<ProposalView> {
    ops.map_values(|op: Seq<char>| whole(chain, mutator, span, infix(left, op, right)))
}

/// The mutants of a binary expression: other operators, and for a comparison,
/// which is a truth value, both truth values. Direct operands of `&&` and `||`
/// have theirs from the parent.
pub open spec fn binary_mutants(
    s: Seq<char>,
    t: crate::estree::Tree,
    ctx: Context,
) -> Seq<ProposalView> {
    let op = crate::estree::text_in(t, "operator"@);
    let span = crate::estree::span_of(t);
    let concatenation = (op == "+"@ || op == "-"@) && (is_stringy(
        crate::estree::node_in(t, "left"@),
    ) || is_stringy(crate::estree::node_in(t, "right"@)));
    let mutator = if is_comparison(op) {
        "EqualityOperator"@
    } else {
        "ArithmeticOperator"@
    };
    (if concatenation {
        Seq::empty()
    } else {
        swapped(
            ctx.chain,
            mutator,
            span,
            part(s, t, "left"@),
            part(s, t, "right"@),
            binary_swaps(op),
        )
    }) + (if is_comparison(op) && ctx.role != Role::Operand {
        bool_pair(ctx.chain, span, ctx.role == Role::LoopTest)
    } else {
        Seq::empty()
    })
}

fn mutate_binary(source: &Source, node: &serde_json::Value, ctx: Context) -> (r: Vec<Proposal>)
    ensures
        crate::collect::proposal_views(r@) == binary_mutants(
            source.text(),
            crate::estree::json_tree(*node),
            ctx,
        ),
{
    let mut out: Vec<Proposal> = Vec::new();
    let op = get_text(node, "operator");
    let span = get_span(node);
    let concatenation: bool = (same(op, "+") || same(op, "-")) && (member_stringy(node, "left")
        || member_stringy(node, "right"));
    let mutator: &'static str = if comparison(op) {
        "EqualityOperator"
    } else {
        "ArithmeticOperator"
    };
    proof {
        assert(crate::collect::proposal_views(out@) =~= Seq::<ProposalView>::empty());
    }
    if !concatenation {
        let left = read_part(source, node, "left");
        let right = read_part(source, node, "right");
        let others = swaps(op);
        let ghost ops = crate::text::texts(others@);
        let ghost all = swapped(ctx.chain, mutator@, span, left@, right@, ops);
        let mut i: usize = 0;
        proof {
            assert(crate::collect::proposal_views(out@) =~= all.take(0));
        }
        while i < others.len()
            invariant
                i <= others@.len(),
                ops == crate::text::texts(others@),
                all == swapped(ctx.chain, mutator@, span, left@, right@, ops),
                crate::collect::proposal_views(out@) == all.take(i as int),
            decreases others@.len() - i,
        {
            let replacement = write_infix(left.as_str(), others[i].as_str(), right.as_str());
            push_whole(&mut out, ctx.chain, mutator, span, replacement);
            i = i + 1;
            proof {
                assert(crate::collect::proposal_views(out@) =~= all.take(i as int));
            }
        }
        proof {
            assert(all.take(others@.len() as int) =~= all);
        }
    }
    if comparison(op) && ctx.role != Role::Operand {
        push_bool_pair(&mut out, ctx.chain, span, ctx.role == Role::LoopTest);
    }
    proof {
        assert(crate::collect::proposal_views(out@) =~= binary_mutants(
            source.text(),
            crate::estree::json_tree(*node),
            ctx,
        ));
    }
    out
}

/// The expression inside parentheses, type assertions and the like.
pub open spec fn inner_of(t: crate::estree::Tree) -> crate::estree::Tree
    decreases t,
{
    match crate::estree::member(t, "expression"@) {
        Some(inner) => if crate::walk::is_wrapper(crate::estree::type_of(t)) {
            proof {
                crate::walk::lemma_member_below(t, "expression"@);
            }
            inner_of(inner)
        } else {
            t
        },
        None => t,
    }
}

fn inner<'a>(node: &'a serde_json::Value) -> (r: &'a serde_json::Value)
    ensures
        crate::estree::json_tree(*r) == inner_of(crate::estree::json_tree(*node)),
    decreases crate::estree::json_tree(*node),
{
    match json_member(node, "expression") {
        Some(found) => if wrapper(get_type(node)) {
            proof {
                crate::walk::lemma_member_below(crate::estree::json_tree(*node), "expression"@);
            }
            inner(found)
        } else {
            node
        },
        None => node,
    }
}

/// An expression that is a truth value by its shape.
pub open spec fn is_boolean_shaped(t: crate::estree::Tree) -> bool {
    let op = crate::estree::text_in(t, "operator"@);
    if crate::estree::type_of(t) == "LogicalExpression"@ {
        op != "??"@
    } else {
        crate::estree::type_of(t) == "BinaryExpression"@ && is_comparison(op)
    }
}

fn boolean_shaped(node: &serde_json::Value) -> (r: bool)
    ensures
        r == is_boolean_shaped(crate::estree::json_tree(*node)),
{
    let op = get_text(node, "operator");
    if same(get_type(node), "LogicalExpression") {
        !same(op, "??")
    } else {
        same(get_type(node), "BinaryExpression") && comparison(op)
    }
}

/// The one truth value that an operand of `&&` or `||` is replaced by, where it
/// is boolean-shaped; parentheses are transparent.
pub open spec fn operand_mutants(
    t: crate::estree::Tree,
    name: Seq<char>,
    ctx: Context,
) -> Seq<ProposalView> {
    let operand = inner_of(crate::estree::node_in(t, name));
    if is_boolean_shaped(operand) {
        seq![
            whole(
                ctx.chain,
                "ConditionalExpression"@,
                crate::estree::span_of(operand),
                if crate::estree::text_in(t, "operator"@) == "&&"@ {
                    "true"@
                } else {
                    "false"@
                },
            ),
        ]
    } else {
        Seq::empty()
    }
}

fn push_operand(out: &mut Vec<Proposal>, node: &serde_json::Value, name: &str, ctx: Context)
    ensures
        crate::collect::proposal_views(final(out)@) == crate::collect::proposal_views(old(out)@)
            + operand_mutants(crate::estree::json_tree(*node), name@, ctx),
{
    let ghost before = crate::collect::proposal_views(out@);
    match json_member(node, name) {
        Some(found) => {
            let operand = inner(found);
            if boolean_shaped(operand) {
                let value = if same(get_text(node, "operator"), "&&") {
                    "true"
                } else {
                    "false"
                };
                push_whole(
                    out,
                    ctx.chain,
                    "ConditionalExpression",
                    get_span(operand),
                    copy_text(value),
                );
            }
        },
        None => {
            proof {
                reveal_strlit("LogicalExpression");
                reveal_strlit("BinaryExpression");
                assert("LogicalExpression"@.len() > 0);
                assert("BinaryExpression"@.len() > 0);
            }
        },
    }
    proof {
        assert(crate::collect::proposal_views(out@) =~= before + operand_mutants(
            crate::estree::json_tree(*node),
            name@,
            ctx,
        ));
    }
}

/// The text of an operand of a rebuilt logical expression, in parentheses when
/// it is itself a logical expression: `??` cannot be mixed with `&&` and `||`.
pub open spec fn operand_text(s: Seq<char>, t: crate::estree::Tree, name: Seq<char>) -> Seq<char> {
    if crate::estree::type_of(crate::estree::node_in(t, name)) == "LogicalExpression"@ {
        "("@ + part(s, t, name) + ")"@
    } else {
        part(s, t, name)
    }
}

fn read_operand(source: &Source, node: &serde_json::Value, name: &str) -> (r: String)
    ensures
        r@ == operand_text(source.text(), crate::estree::json_tree(*node), name@),
{
    let text = read_part(source, node, name);
    if same(get_member_type(node, name), "LogicalExpression") {
        concat3("(", text.as_str(), ")")
    } else {
        text
    }
}

/// The mutants of a logical expression.
pub open spec fn logical_mutants(
    s: Seq<char>,
    t: crate::estree::Tree,
    ctx: Context,
) -> Seq<ProposalView> {
    let op = crate::estree::text_in(t, "operator"@);
    let span = crate::estree::span_of(t);
    let other = if op == "&&"@ {
        "||"@
    } else {
        "&&"@
    };
    seq![
        whole(
            ctx.chain,
            "LogicalOperator"@,
            span,
            infix(operand_text(s, t, "left"@), other, operand_text(s, t, "right"@)),
        ),
    ] + (if op == "??"@ {
        Seq::empty()
    } else {
        (if ctx.role == Role::Operand {
            Seq::empty()
        } else {
            bool_pair(ctx.chain, span, ctx.role == Role::LoopTest)
        }) + operand_mutants(t, "left"@, ctx) + operand_mutants(t, "right"@, ctx)
    })
}

fn mutate_logical(source: &Source, node: &serde_json::Value, ctx: Context) -> (r: Vec<Proposal>)
    ensures
        crate::collect::proposal_views(r@) == logical_mutants(
            source.text(),
            crate::estree::json_tree(*node),
            ctx,
        ),
{
    let mut out: Vec<Proposal> = Vec::new();
    let op = get_text(node, "operator");
    let span = get_span(node);
    let left = read_operand(source, node, "left");
    let right = read_operand(source, node, "right");
    let other = if same(op, "&&") {
        "||"
    } else {
        "&&"
    };
    push_whole(
        &mut out,
        ctx.chain,
        "LogicalOperator",
        span,
        write_infix(left.as_str(), other, right.as_str()),
    );
    if !same(op, "??") {
        if ctx.role != Role::Operand {
            push_bool_pair(&mut out, ctx.chain, span, ctx.role == Role::LoopTest);
        }
        push_operand(&mut out, node, "left", ctx);
        push_operand(&mut out, node, "right", ctx);
    }
    proof {
        assert(crate::collect::proposal_views(out@) =~= logical_mutants(
            source.text(),
            crate::estree::json_tree(*node),
            ctx,
        ));
    }
    out
}

/// What takes the place of a unary expression with an operator and an argument.
pub open spec fn unary_change(op: Seq<char>, argument: Seq<char>) -> Option<(Seq<char>, Seq<char>)> {
    if op == "!"@ {
        Some(("BooleanLiteral"@, argument))
    } else if op == "-"@ {
        Some(("UnaryOperator"@, "+"@ + argument))
    } else if op == "+"@ {
        Some(("UnaryOperator"@, "-"@ + argument))
    } else if op == "~"@ {
        Some(("UnaryOperator"@, argument))
    } else {
        None
    }
}

/// The mutants of a unary expression.
pub open spec fn unary_mutants(
    s: Seq<char>,
    t: crate::estree::Tree,
    ctx: Context,
) -> Seq<ProposalView> {
    match unary_change(crate::estree::text_in(t, "operator"@), part(s, t, "argument"@)) {
        Some((mutator, replacement)) => seq![
            whole(ctx.chain, mutator, crate::estree::span_of(t), replacement),
        ],
        None => Seq::empty(),
    }
}

fn mutate_unary(source: &Source, node: &serde_json::Value, ctx: Context) -> (r: Vec<Proposal>)
    ensures
        crate::collect::proposal_views(r@) == unary_mutants(
            source.text(),
            crate::estree::json_tree(*node),
            ctx,
        ),
{
    let mut out: Vec<Proposal> = Vec::new();
    let op = get_text(node, "operator");
    let span = get_span(node);
    let argument = read_part(source, node, "argument");
    if same(op, "!") {
        push_whole(&mut out, ctx.chain, "BooleanLiteral", span, argument);
    } else if same(op, "-") {
        push_whole(&mut out, ctx.chain, "UnaryOperator", span, concat2("+", argument.as_str()));
    } else if same(op, "+") {
        push_whole(&mut out, ctx.chain, "UnaryOperator", span, concat2("-", argument.as_str()));
    } else if same(op, "~") {
        push_whole(&mut out, ctx.chain, "UnaryOperator", span, argument);
    }
    proof {
        assert(crate::collect::proposal_views(out@) =~= unary_mutants(
            source.text(),
            crate::estree::json_tree(*node),
            ctx,
        ));
    }
    out
}

/// `text` with its first or last `from` replaced by `to`.
pub open spec fn operator_replaced(
    text: Seq<char>,
    from: Seq<char>,
    to: Seq<char>,
    first: bool,
) -> Seq<char> {
    match if first {
        crate::text::find(text, from)
    } else {
        crate::text::rfind(text, from)
    } {
        Some(p) => text.take(p) + to + text.skip(p + from.len()),
        None => text,
    }
}

fn replace_operator(text: &str, from: &str, to: &str, first: bool) -> (r: String)
    ensures
        r@ == operator_replaced(text@, from@, to@, first),
{
    let t = chars_of(text);
    let f = chars_of(from);
    let found = if first {
        crate::text::find_chars(&t, &f, 0)
    } else {
        crate::text::rfind_chars(&t, &f)
    };
    proof {
        crate::text::lemma_find_from(t@, f@, 0);
        crate::text::lemma_rfind_to(t@, f@, t@.len() - f@.len());
    }
    match found {
        Some(p) => {
            let total = t.len();
            let head = text_of(&t, 0, p);
            let tail = text_of(&t, p + f.len(), total);
            proof {
                assert(head@ =~= t@.take(p as int));
                assert(tail@ =~= t@.skip(p + f@.len()));
            }
            concat3(head.as_str(), to, tail.as_str())
        },
        None => copy_text(text),
    }
}

/// The mutants of `++` and `--`; only the operator token is replaced, which
/// keeps the prefix or postfix shape.
pub open spec fn update_mutants(
    s: Seq<char>,
    t: crate::estree::Tree,
    ctx: Context,
) -> Seq<ProposalView> {
    let span = crate::estree::span_of(t);
    let up = crate::estree::text_in(t, "operator"@) == "++"@;
    let replacement = operator_replaced(
        crate::collect::text_at(s, span),
        if up {
            "++"@
        } else {
            "--"@
        },
        if up {
            "--"@
        } else {
            "++"@
        },
        crate::estree::flag_in(t, "prefix"@),
    );
    seq![whole(ctx.chain, "UpdateOperator"@, span, replacement)]
}

fn mutate_update(source: &Source, node: &serde_json::Value, ctx: Context) -> (r: Vec<Proposal>)
    ensures
        crate::collect::proposal_views(r@) == update_mutants(
            source.text(),
            crate::estree::json_tree(*node),
            ctx,
        ),
{
    let mut out: Vec<Proposal> = Vec::new();
    let span = get_span(node);
    let up: bool = same(get_text(node, "operator"), "++");
    let text = read_at(source, span);
    let from = if up {
        "++"
    } else {
        "--"
    };
    let to = if up {
        "--"
    } else {
        "++"
    };
    let replacement = replace_operator(text.as_str(), from, to, get_flag(node, "prefix"));
    push_whole(&mut out, ctx.chain, "UpdateOperator", span, replacement);
    proof {
        assert(crate::collect::proposal_views(out@) =~= update_mutants(
            source.text(),
            crate::estree::json_tree(*node),
            ctx,
        ));
    }
    out
}

/// The assignment operator that takes the place of another.
pub open spec fn assignment_swap(op: Seq<char>, stringy_right: bool) -> Option<Seq<char>> {
    if op == "+="@ {
        if stringy_right {
            None
        } else {
            Some("-="@)
        }
    } else if op == "-="@ {
        Some("+="@)
    } else if op == "*="@ {
        Some("/="@)
    } else if op == "/="@ || op == "%="@ {
        Some("*="@)
    } else if op == "<<="@ {
        Some(">>="@)
    } else if op == ">>="@ {
        Some("<<="@)
    } else if op == "&="@ {
        Some("|="@)
    } else if op == "|="@ {
        Some("&="@)
    } else if op == "&&="@ {
        Some("||="@)
    } else if op == "||="@ || op == "??="@ {
        Some("&&="@)
    } else {
        None
    }
}

fn swap_assignment(op: &str, stringy_right: bool) -> (r: Option<&'static str>)
    ensures
        match r {
            Some(other) => assignment_swap(op@, stringy_right) == Some(other@),
            None => assignment_swap(op@, stringy_right) is None,
        },
{
    if same(op, "+=") {
        if stringy_right {
            None
        } else {
            Some("-=")
        }
    } else if same(op, "-=") {
        Some("+=")
    } else if same(op, "*=") {
        Some("/=")
    } else if same(op, "/=") || same(op, "%=") {
        Some("*=")
    } else if same(op, "<<=") {
        Some(">>=")
    } else if same(op, ">>=") {
        Some("<<=")
    } else if same(op, "&=") {
        Some("|=")
    } else if same(op, "|=") {
        Some("&=")
    } else if same(op, "&&=") {
        Some("||=")
    } else if same(op, "||=") || same(op, "??=") {
        Some("&&=")
    } else {
        None
    }
}

/// The mutants of an assignment.
pub open spec fn assignment_mutants(
    s: Seq<char>,
    t: crate::estree::Tree,
    ctx: Context,
) -> Seq<ProposalView> {
    match assignment_swap(
        crate::estree::text_in(t, "operator"@),
        is_stringy(crate::estree::node_in(t, "right"@)),
    ) {
        Some(op) => seq![
            whole(
                ctx.chain,
                "AssignmentOperator"@,
                crate::estree::span_of(t),
                infix(part(s, t, "left"@), op, part(s, t, "right"@)),
            ),
        ],
        None => Seq::empty(),
    }
}

fn mutate_assignment(source: &Source, node: &serde_json::Value, ctx: Context) -> (r: Vec<Proposal>)
    ensures
        crate::collect::proposal_views(r@) == assignment_mutants(
            source.text(),
            crate::estree::json_tree(*node),
            ctx,
        ),
{
    let mut out: Vec<Proposal> = Vec::new();
    let stringy_right: bool = member_stringy(node, "right");
    if let Some(op) = swap_assignment(get_text(node, "operator"), stringy_right) {
        let left = read_part(source, node, "left");
        let right = read_part(source, node, "right");
        push_whole(
            &mut out,
            ctx.chain,
            "AssignmentOperator",
            get_span(node),
            write_infix(left.as_str(), op, right.as_str()),
        );
    }
    proof {
        assert(crate::collect::proposal_views(out@) =~= assignment_mutants(
            source.text(),
            crate::estree::json_tree(*node),
            ctx,
        ));
    }
    out
}

// ---- literals ----

/// The mutants of a regular expression literal.
pub open spec fn regex_mutants(s: Seq<char>, t: crate::estree::Tree, ctx: Context) -> Seq<
    ProposalView,
> {
    let span = crate::estree::span_of(t);
    crate::regex_mutations::mutations_of(crate::collect::text_at(s, span)).map_values(
        |m: Seq<char>| whole(ctx.chain, "Regex"@, span, m),
    )
}

fn mutate_regex(source: &Source, node: &serde_json::Value, ctx: Context) -> (r: Vec<Proposal>)
    ensures
        crate::collect::proposal_views(r@) == regex_mutants(
            source.text(),
            crate::estree::json_tree(*node),
            ctx,
        ),
{
    let mut out: Vec<Proposal> = Vec::new();
    let span = get_span(node);
    let text = read_at(source, span);
    let changes = regex_mutations(text.as_str());
    let ghost all = regex_mutants(source.text(), crate::estree::json_tree(*node), ctx);
    let ghost texts = crate::text::texts(changes@);
    let mut i: usize = 0;
    proof {
        assert(crate::collect::proposal_views(out@) =~= all.take(0));
    }
    while i < changes.len()
        invariant
            i <= changes@.len(),
            texts == crate::text::texts(changes@),
            all == texts.map_values(|m: Seq<char>| whole(ctx.chain, "Regex"@, span, m)),
            crate::collect::proposal_views(out@) == all.take(i as int),
        decreases changes@.len() - i,
    {
        push_whole(&mut out, ctx.chain, "Regex", span, copy_text(changes[i].as_str()));
        i = i + 1;
        proof {
            assert(crate::collect::proposal_views(out@) =~= all.take(i as int));
        }
    }
    proof {
        assert(all.take(changes@.len() as int) =~= all);
    }
    out
}

/// The mutants of a literal: the other truth value, a string that is empty
/// exactly where the literal is not, changed regular expressions.
pub open spec fn literal_mutants(
    s: Seq<char>,
    t: crate::estree::Tree,
    ctx: Context,
) -> Seq<ProposalView> {
    let span = crate::estree::span_of(t);
    if crate::estree::member(t, "regex"@) is Some {
        regex_mutants(s, t, ctx)
    } else {
        match crate::estree::node_in(t, "value"@) {
            crate::estree::Tree::Flag(value) => seq![
                whole(
                    ctx.chain,
                    "BooleanLiteral"@,
                    span,
                    if value {
                        "false"@
                    } else {
                        "true"@
                    },
                ),
            ],
            crate::estree::Tree::Text(value) => seq![
                whole(
                    ctx.chain,
                    "StringLiteral"@,
                    span,
                    if value.len() == 0 {
                        "\"Stryker was here!\""@
                    } else {
                        "\"\""@
                    },
                ),
            ],
            _ => Seq::empty(),
        }
    }
}

fn mutate_literal(source: &Source, node: &serde_json::Value, ctx: Context) -> (r: Vec<Proposal>)
    ensures
        crate::collect::proposal_views(r@) == literal_mutants(
            source.text(),
            crate::estree::json_tree(*node),
            ctx,
        ),
{
    if json_member(node, "regex").is_some() {
        return mutate_regex(source, node, ctx);
    }
    let mut out: Vec<Proposal> = Vec::new();
    let span = get_span(node);
    if let Some(value) = json_member(node, "value") {
        if let Some(flag) = json_flag(value) {
            let other = if flag {
                "false"
            } else {
                "true"
            };
            push_whole(&mut out, ctx.chain, "BooleanLiteral", span, copy_text(other));
        } else if let Some(text) = json_text(value) {
            let other = if text.is_empty() {
                "\"Stryker was here!\""
            } else {
                "\"\""
            };
            push_whole(&mut out, ctx.chain, "StringLiteral", span, copy_text(other));
        }
    }
    proof {
        assert(crate::collect::proposal_views(out@) =~= literal_mutants(
            source.text(),
            crate::estree::json_tree(*node),
            ctx,
        ));
    }
    out
}

/// A piece of a template without characters.
pub open spec fn is_empty_quasi(t: crate::estree::Tree) -> bool {
    crate::estree::text_in(crate::estree::node_in(t, "value"@), "raw"@).len() == 0
}

/// A template without expressions and characters.
pub open spec fn is_empty_template(t: crate::estree::Tree) -> bool {
    let quasis = crate::estree::list_in(t, "quasis"@);
    crate::estree::list_in(t, "expressions"@).len() == 0 && forall|i: int|
        0 <= i < quasis.len() ==> is_empty_quasi(#[trigger] quasis[i])
}

fn empty_template(node: &serde_json::Value) -> (r: bool)
    ensures
        r == is_empty_template(crate::estree::json_tree(*node)),
{
    let ghost t = crate::estree::json_tree(*node);
    if !empty_list(node, "expressions") {
        return false;
    }
    match get_list(node, "quasis") {
        Some(items) => {
            let ghost quasis = crate::estree::list_in(t, "quasis"@);
            let mut i: usize = 0;
            while i < items.len()
                invariant
                    i <= items@.len(),
                    t == crate::estree::json_tree(*node),
                    quasis == crate::estree::list_in(t, "quasis"@),
                    quasis == crate::estree::json_trees(items@),
                    forall|k: int| 0 <= k < i ==> is_empty_quasi(#[trigger] quasis[k]),
                decreases items@.len() - i,
            {
                proof {
                    assert(quasis[i as int] == crate::estree::json_tree(items@[i as int]));
                }
                if !get_member_text(&items[i], "value", "raw").is_empty() {
                    proof {
                        assert(!is_empty_quasi(quasis[i as int]));
                    }
                    return false;
                }
                i = i + 1;
            }
            true
        },
        None => true,
    }
}

fn empty_list(node: &serde_json::Value, name: &str) -> (r: bool)
    ensures
        r == (crate::estree::list_in(crate::estree::json_tree(*node), name@).len() == 0),
{
    match get_list(node, name) {
        Some(items) => items.len() == 0,
        None => true,
    }
}

/// The mutant of a template that has no tag: a ternary in the place of a tagged
/// template would turn it into a call.
pub open spec fn template_mutants(t: crate::estree::Tree, ctx: Context) -> Seq<ProposalView> {
    if ctx.role == Role::Tagged {
        Seq::empty()
    } else {
        seq![
            whole(
                ctx.chain,
                "StringLiteral"@,
                crate::estree::span_of(t),
                if is_empty_template(t) {
                    "`Stryker was here!`"@
                } else {
                    "``"@
                },
            ),
        ]
    }
}

/// The mutant of an object literal that has members.
pub open spec fn object_mutants(t: crate::estree::Tree, ctx: Context) -> Seq<ProposalView> {
    if crate::estree::list_in(t, "properties"@).len() == 0 {
        Seq::empty()
    } else {
        seq![whole(ctx.chain, "ObjectLiteral"@, crate::estree::span_of(t), "{}"@)]
    }
}

/// The mutant of an array literal: empty exactly where the literal is not.
pub open spec fn array_mutants(t: crate::estree::Tree, ctx: Context) -> Seq<ProposalView> {
    seq![
        whole(
            ctx.chain,
            "ArrayDeclaration"@,
            crate::estree::span_of(t),
            if crate::estree::list_in(t, "elements"@).len() == 0 {
                "[\"Stryker was here\"]"@
            } else {
                "[]"@
            },
        ),
    ]
}

/// The mutant of an arrow function with a concise body.
pub open spec fn arrow_mutants(s: Seq<char>, t: crate::estree::Tree, ctx: Context) -> Seq<
    ProposalView,
> {
    if crate::estree::flag_in(t, "expression"@) && part(s, t, "body"@) != "undefined"@ {
        seq![whole(ctx.chain, "ArrowFunction"@, crate::estree::span_of(t), "() => undefined"@)]
    } else {
        Seq::empty()
    }
}

// ---- statements ----

/// The mutants of an `if`: both truth values for its test.
pub open spec fn if_mutants(t: crate::estree::Tree, ctx: Context) -> Seq<ProposalView> {
    bool_pair(ctx.chain, crate::estree::span_of(crate::estree::node_in(t, "test"@)), false)
}

/// The mutant of a loop with a test: it never runs.
pub open spec fn loop_mutants(t: crate::estree::Tree, ctx: Context) -> Seq<ProposalView> {
    let test = crate::estree::node_in(t, "test"@);
    if test is Object {
        bool_pair(ctx.chain, crate::estree::span_of(test), true)
    } else {
        Seq::empty()
    }
}

fn mutate_loop(node: &serde_json::Value, ctx: Context) -> (r: Vec<Proposal>)
    ensures
        crate::collect::proposal_views(r@) == loop_mutants(crate::estree::json_tree(*node), ctx),
{
    let mut out: Vec<Proposal> = Vec::new();
    if let Some(test) = json_member(node, "test") {
        if json_is_object(test) {
            push_bool_pair(&mut out, ctx.chain, get_span(test), true);
        }
    }
    proof {
        assert(crate::collect::proposal_views(out@) =~= loop_mutants(
            crate::estree::json_tree(*node),
            ctx,
        ));
    }
    out
}

/// The mutant of a `case` with statements: they become unreachable. It is
/// reported at the `case` keyword with the bare label as replacement.
pub open spec fn case_mutants(s: Seq<char>, t: crate::estree::Tree) -> Seq<ProposalView> {
    let body = crate::estree::list_in(t, "consequent"@);
    if body.len() == 0 {
        Seq::empty()
    } else {
        let start = crate::estree::span_of(t).start;
        let first = crate::estree::span_of(body[0]);
        let last = crate::estree::span_of(body.last());
        seq![
            ProposalView {
                mutator: "ConditionalExpression"@,
                placement: Placement::Statements { span: Span { start: first.start, end: last.end } },
                sub_span: Span { start, end: last.end },
                replacement: crate::text::trimmed_back(
                    crate::collect::text_at(s, Span { start, end: first.start }),
                ),
            },
        ]
    }
}

fn mutate_case(source: &Source, node: &serde_json::Value) -> (r: Vec<Proposal>)
    ensures
        crate::collect::proposal_views(r@) == case_mutants(
            source.text(),
            crate::estree::json_tree(*node),
        ),
{
    let mut out: Vec<Proposal> = Vec::new();
    let ghost t = crate::estree::json_tree(*node);
    if let Some(body) = get_list(node, "consequent") {
        if body.len() > 0 {
            let start: u32 = get_span(node).start;
            let first = get_span(&body[0]);
            let last = get_span(&body[body.len() - 1]);
            let label = read_at(source, Span { start, end: first.start });
            proof {
                let trees = crate::estree::list_in(t, "consequent"@);
                assert(trees[0] == crate::estree::json_tree(body@[0]));
                assert(trees.last() == crate::estree::json_tree(body@[body@.len() - 1]));
            }
            push_proposal(
                &mut out,
                Proposal {
                    mutator: "ConditionalExpression",
                    placement: Placement::Statements {
                        span: Span { start: first.start, end: last.end },
                    },
                    sub_span: Span { start, end: last.end },
                    replacement: trim_end(label.as_str()),
                },
            );
        }
    }
    proof {
        assert(crate::collect::proposal_views(out@) =~= case_mutants(
            source.text(),
            crate::estree::json_tree(*node),
        ));
    }
    out
}

/// Whether one of the statements is a directive such as `"use strict"`.
pub open spec fn has_directive(body: Seq<crate::estree::Tree>) -> bool {
    exists|i: int| 0 <= i < body.len() && crate::estree::member(#[trigger] body[i], "directive"@) is Some
}

fn any_directive(items: &Vec<serde_json::Value>) -> (r: bool)
    ensures
        r == has_directive(crate::estree::json_trees(items@)),
{
    let ghost trees = crate::estree::json_trees(items@);
    let mut i: usize = 0;
    while i < items.len()
        invariant
            i <= items@.len(),
            trees == crate::estree::json_trees(items@),
            forall|k: int|
                0 <= k < i ==> crate::estree::member(#[trigger] trees[k], "directive"@) is None,
        decreases items@.len() - i,
    {
        proof {
            assert(trees[i as int] == crate::estree::json_tree(items@[i as int]));
        }
        if json_member(&items[i], "directive").is_some() {
            return true;
        }
        i = i + 1;
    }
    false
}

/// The mutant of a block that has statements. The body of a function is left
/// alone where it starts with directives, which no other block could hold, and
/// where it is that of a constructor that calls `super`.
pub open spec fn block_mutants(s: Seq<char>, t: crate::estree::Tree, ctx: Context) -> Seq<
    ProposalView,
> {
    let body = crate::estree::list_in(t, "body"@);
    let span = crate::estree::span_of(t);
    let blank = body.len() > 0 && ctx.role != Role::ConstructorBody && (ctx.role == Role::Body
        ==> !has_directive(body) && crate::text::begins(crate::collect::text_at(s, span), "{"@));
    if blank {
        seq![
            ProposalView {
                mutator: "BlockStatement"@,
                placement: Placement::BlockBody { block: span },
                sub_span: span,
                replacement: "{}"@,
            },
        ]
    } else {
        Seq::empty()
    }
}

fn mutate_block(source: &Source, node: &serde_json::Value, ctx: Context) -> (r: Vec<Proposal>)
    ensures
        crate::collect::proposal_views(r@) == block_mutants(
            source.text(),
            crate::estree::json_tree(*node),
            ctx,
        ),
{
    let mut out: Vec<Proposal> = Vec::new();
    let span = get_span(node);
    if let Some(body) = get_list(node, "body") {
        let text = read_at(source, span);
        let blank: bool = body.len() > 0 && ctx.role != Role::ConstructorBody && (ctx.role
            != Role::Body || (!any_directive(body) && begins_with(text.as_str(), "{")));
        if blank {
            push_proposal(
                &mut out,
                Proposal {
                    mutator: "BlockStatement",
                    placement: Placement::BlockBody { block: span },
                    sub_span: span,
                    replacement: copy_text("{}"),
                },
            );
        }
    }
    proof {
        assert(crate::collect::proposal_views(out@) =~= block_mutants(
            source.text(),
            crate::estree::json_tree(*node),
            ctx,
        ));
    }
    out
}

// ---- member and call chains ----

/// The mutant that drops the `?.` of a member access.
pub open spec fn member_mutants(s: Seq<char>, t: crate::estree::Tree, ctx: Context) -> Seq<
    ProposalView,
> {
    let chain = crate::walk::chain_at(t, ctx);
    let span = crate::estree::span_of(t);
    if !crate::estree::flag_in(t, "optional"@) {
        Seq::empty()
    } else if crate::estree::flag_in(t, "computed"@) {
        seq![
            whole(
                chain,
                "OptionalChaining"@,
                span,
                part(s, t, "object"@) + "["@ + part(s, t, "property"@) + "]"@,
            ),
        ]
    } else if crate::walk::is_static_member(t) {
        seq![
            whole(
                chain,
                "OptionalChaining"@,
                span,
                part(s, t, "object"@) + "."@ + crate::estree::text_in(
                    crate::estree::node_in(t, "property"@),
                    "name"@,
                ),
            ),
        ]
    } else {
        Seq::empty()
    }
}

fn mutate_member(source: &Source, node: &serde_json::Value, ctx: Context) -> (r: Vec<Proposal>)
    ensures
        crate::collect::proposal_views(r@) == member_mutants(
            source.text(),
            crate::estree::json_tree(*node),
            ctx,
        ),
{
    let mut out: Vec<Proposal> = Vec::new();
    let chain = chain_of(node, ctx);
    let span = get_span(node);
    if get_flag(node, "optional") {
        let object = read_part(source, node, "object");
        if get_flag(node, "computed") {
            let index = read_part(source, node, "property");
            let mut text = concat3(object.as_str(), "[", index.as_str());
            text.append("]");
            push_whole(&mut out, chain, "OptionalChaining", span, text);
        } else if static_member(node) {
            let text = concat3(object.as_str(), ".", get_member_text(node, "property", "name"));
            push_whole(&mut out, chain, "OptionalChaining", span, text);
        }
    }
    proof {
        assert(crate::collect::proposal_views(out@) =~= member_mutants(
            source.text(),
            crate::estree::json_tree(*node),
            ctx,
        ));
    }
    out
}

/// The method that takes the place of another.
pub open spec fn method_swap(name: Seq<char>) -> Option<Seq<char>> {
    if name == "endsWith"@ {
        Some("startsWith"@)
    } else if name == "startsWith"@ {
        Some("endsWith"@)
    } else if name == "toUpperCase"@ {
        Some("toLowerCase"@)
    } else if name == "toLowerCase"@ {
        Some("toUpperCase"@)
    } else if name == "toLocaleUpperCase"@ {
        Some("toLocaleLowerCase"@)
    } else if name == "toLocaleLowerCase"@ {
        Some("toLocaleUpperCase"@)
    } else if name == "trimStart"@ {
        Some("trimEnd"@)
    } else if name == "trimEnd"@ {
        Some("trimStart"@)
    } else if name == "some"@ {
        Some("every"@)
    } else if name == "every"@ {
        Some("some"@)
    } else if name == "min"@ {
        Some("max"@)
    } else if name == "max"@ {
        Some("min"@)
    } else {
        None
    }
}

fn swap_method(name: &str) -> (r: Option<&'static str>)
    ensures
        match r {
            Some(other) => method_swap(name@) == Some(other@),
            None => method_swap(name@) is None,
        },
{
    if same(name, "endsWith") {
        Some("startsWith")
    } else if same(name, "startsWith") {
        Some("endsWith")
    } else if same(name, "toUpperCase") {
        Some("toLowerCase")
    } else if same(name, "toLowerCase") {
        Some("toUpperCase")
    } else if same(name, "toLocaleUpperCase") {
        Some("toLocaleLowerCase")
    } else if same(name, "toLocaleLowerCase") {
        Some("toLocaleUpperCase")
    } else if same(name, "trimStart") {
        Some("trimEnd")
    } else if same(name, "trimEnd") {
        Some("trimStart")
    } else if same(name, "some") {
        Some("every")
    } else if same(name, "every") {
        Some("some")
    } else if same(name, "min") {
        Some("max")
    } else if same(name, "max") {
        Some("min")
    } else {
        None
    }
}

/// Methods whose call is removed: `a.filter(f)` becomes `a`.
pub open spec fn is_removable(name: Seq<char>) -> bool {
    name == "trim"@ || name == "substr"@ || name == "substring"@ || name == "sort"@ || name
        == "reverse"@ || name == "filter"@ || name == "slice"@ || name == "charAt"@
}

fn removable(name: &str) -> (r: bool)
    ensures
        r == is_removable(name@),
{
    same(name, "trim") || same(name, "substr") || same(name, "substring") || same(name, "sort")
        || same(name, "reverse") || same(name, "filter") || same(name, "slice") || same(
        name,
        "charAt",
    )
}

/// The mutant that drops the `?.` of an optional call.
pub open spec fn optional_call_mutants(
    s: Seq<char>,
    t: crate::estree::Tree,
    ctx: Context,
) -> Seq<ProposalView> {
    let span = crate::estree::span_of(t);
    let callee_end = crate::estree::span_of(crate::estree::node_in(t, "callee"@)).end;
    let head = crate::collect::text_at(s, Span { start: span.start, end: callee_end });
    let tail = crate::collect::text_at(s, Span { start: callee_end, end: span.end });
    if !crate::estree::flag_in(t, "optional"@) {
        Seq::empty()
    } else {
        match crate::text::cut_once(tail, "?."@) {
            Some((before, after)) => seq![
                whole(
                    crate::walk::chain_at(t, ctx),
                    "OptionalChaining"@,
                    span,
                    head + before + after,
                ),
            ],
            None => Seq::empty(),
        }
    }
}

/// The mutant that swaps or strips a well-known method.
pub open spec fn method_mutants(s: Seq<char>, t: crate::estree::Tree, ctx: Context) -> Seq<
    ProposalView,
> {
    let callee = crate::estree::node_in(t, "callee"@);
    let property = crate::estree::node_in(callee, "property"@);
    let name = crate::estree::text_in(property, "name"@);
    let span = crate::estree::span_of(t);
    let chain = crate::walk::chain_at(t, ctx);
    if !crate::walk::is_static_member(callee) {
        Seq::empty()
    } else {
        match method_swap(name) {
            Some(other) => {
                let at = crate::estree::span_of(property);
                seq![
                    whole(
                        chain,
                        "MethodExpression"@,
                        span,
                        crate::collect::text_at(s, Span { start: span.start, end: at.start }) + other
                            + crate::collect::text_at(s, Span { start: at.end, end: span.end }),
                    ),
                ]
            },
            None => if is_removable(name) {
                seq![whole(chain, "MethodExpression"@, span, part(s, callee, "object"@))]
            } else {
                Seq::empty()
            },
        }
    }
}

/// The mutants of a call; those of `require` and `Symbol` have none.
pub open spec fn call_mutants(s: Seq<char>, t: crate::estree::Tree, ctx: Context) -> Seq<
    ProposalView,
> {
    if crate::walk::is_literal_call(t) {
        Seq::empty()
    } else {
        optional_call_mutants(s, t, ctx) + method_mutants(s, t, ctx)
    }
}

fn push_method(source: &Source, node: &serde_json::Value, ctx: Context, out: &mut Vec<Proposal>)
    ensures
        crate::collect::proposal_views(final(out)@) == crate::collect::proposal_views(old(out)@)
            + method_mutants(source.text(), crate::estree::json_tree(*node), ctx),
{
    let ghost before = crate::collect::proposal_views(out@);
    let span = get_span(node);
    let chain = chain_of(node, ctx);
    proof {
        reveal_strlit("MemberExpression");
        assert("MemberExpression"@.len() > 0);
    }
    if let Some(callee) = json_member(node, "callee") {
        if static_member(callee) {
            let name = get_member_text(callee, "property", "name");
            match swap_method(name) {
                Some(other) => {
                    let at = get_member_span(callee, "property");
                    let head = read_at(source, Span { start: span.start, end: at.start });
                    let tail = read_at(source, Span { start: at.end, end: span.end });
                    push_whole(
                        out,
                        chain,
                        "MethodExpression",
                        span,
                        concat3(head.as_str(), other, tail.as_str()),
                    );
                },
                None => {
                    if removable(name) {
                        let object = read_part(source, callee, "object");
                        push_whole(out, chain, "MethodExpression", span, object);
                    }
                },
            }
        }
    }
    proof {
        assert(crate::collect::proposal_views(out@) =~= before + method_mutants(
            source.text(),
            crate::estree::json_tree(*node),
            ctx,
        ));
    }
}

fn mutate_call(source: &Source, node: &serde_json::Value, ctx: Context) -> (r: Vec<Proposal>)
    ensures
        crate::collect::proposal_views(r@) == call_mutants(
            source.text(),
            crate::estree::json_tree(*node),
            ctx,
        ),
{
    let mut out: Vec<Proposal> = Vec::new();
    proof {
        assert(crate::collect::proposal_views(out@) =~= Seq::<ProposalView>::empty());
    }
    if literal_call(node) {
        return out;
    }
    let span = get_span(node);
    if get_flag(node, "optional") {
        let callee_end: u32 = get_member_span(node, "callee").end;
        let head = read_at(source, Span { start: span.start, end: callee_end });
        let tail = read_at(source, Span { start: callee_end, end: span.end });
        if let Some((before, after)) = crate::text::split_once(tail.as_str(), "?.") {
            push_whole(
                &mut out,
                chain_of(node, ctx),
                "OptionalChaining",
                span,
                concat3(head.as_str(), before.as_str(), after.as_str()),
            );
        }
    }
    proof {
        assert(crate::collect::proposal_views(out@) =~= optional_call_mutants(
            source.text(),
            crate::estree::json_tree(*node),
            ctx,
        ));
    }
    push_method(source, node, ctx, &mut out);
    out
}

// ---- all mutators ----

/// The mutants that a node itself gives rise to.
pub open spec fn own(s: Seq<char>, t: crate::estree::Tree, ctx: Context) -> Seq<ProposalView> {
    let ty = crate::estree::type_of(t);
    if ty == "IfStatement"@ {
        if_mutants(t, ctx)
    } else if ty == "WhileStatement"@ || ty == "DoWhileStatement"@ || ty == "ForStatement"@ {
        loop_mutants(t, ctx)
    } else if ty == "BinaryExpression"@ {
        binary_mutants(s, t, ctx)
    } else if ty == "LogicalExpression"@ {
        logical_mutants(s, t, ctx)
    } else if ty == "SwitchCase"@ {
        case_mutants(s, t)
    } else if ty == "Literal"@ {
        literal_mutants(s, t, ctx)
    } else if ty == "TemplateLiteral"@ {
        template_mutants(t, ctx)
    } else if ty == "ObjectExpression"@ {
        object_mutants(t, ctx)
    } else if ty == "UnaryExpression"@ {
        unary_mutants(s, t, ctx)
    } else if ty == "UpdateExpression"@ {
        update_mutants(s, t, ctx)
    } else if ty == "AssignmentExpression"@ {
        assignment_mutants(s, t, ctx)
    } else if ty == "ArrayExpression"@ {
        array_mutants(t, ctx)
    } else if ty == "ArrowFunctionExpression"@ {
        arrow_mutants(s, t, ctx)
    } else if ty == "CallExpression"@ {
        call_mutants(s, t, ctx)
    } else if ty == "MemberExpression"@ {
        member_mutants(s, t, ctx)
    } else if ty == "BlockStatement"@ {
        block_mutants(s, t, ctx)
    } else {
        Seq::empty()
    }
}

/// The mutants that a node itself gives rise to.
pub fn own_proposals(source: &Source, node: &serde_json::Value, ctx: Context) -> (r: Vec<Proposal>)
    ensures
        crate::collect::proposal_views(r@) == own(
            source.text(),
            crate::estree::json_tree(*node),
            ctx,
        ),
{
    let ghost t = crate::estree::json_tree(*node);
    let ty = get_type(node);
    let span = get_span(node);
    let mut out: Vec<Proposal> = Vec::new();
    proof {
        assert(crate::collect::proposal_views(out@) =~= Seq::<ProposalView>::empty());
    }
    if same(ty, "IfStatement") {
        push_bool_pair(&mut out, ctx.chain, get_member_span(node, "test"), false);
        proof {
            assert(crate::collect::proposal_views(out@) =~= if_mutants(t, ctx));
        }
    } else if same(ty, "WhileStatement") || same(ty, "DoWhileStatement") || same(
        ty,
        "ForStatement",
    ) {
        return mutate_loop(node, ctx);
    } else if same(ty, "BinaryExpression") {
        return mutate_binary(source, node, ctx);
    } else if same(ty, "LogicalExpression") {
        return mutate_logical(source, node, ctx);
    } else if same(ty, "SwitchCase") {
        return mutate_case(source, node);
    } else if same(ty, "Literal") {
        return mutate_literal(source, node, ctx);
    } else if same(ty, "TemplateLiteral") {
        if ctx.role != Role::Tagged {
            let text = if empty_template(node) {
                "`Stryker was here!`"
            } else {
                "``"
            };
            push_whole(&mut out, ctx.chain, "StringLiteral", span, copy_text(text));
        }
        proof {
            assert(crate::collect::proposal_views(out@) =~= template_mutants(t, ctx));
        }
    } else if same(ty, "ObjectExpression") {
        if !empty_list(node, "properties") {
            push_whole(&mut out, ctx.chain, "ObjectLiteral", span, copy_text("{}"));
        }
        proof {
            assert(crate::collect::proposal_views(out@) =~= object_mutants(t, ctx));
        }
    } else if same(ty, "UnaryExpression") {
        return mutate_unary(source, node, ctx);
    } else if same(ty, "UpdateExpression") {
        return mutate_update(source, node, ctx);
    } else if same(ty, "AssignmentExpression") {
        return mutate_assignment(source, node, ctx);
    } else if same(ty, "ArrayExpression") {
        let text = if empty_list(node, "elements") {
            "[\"Stryker was here\"]"
        } else {
            "[]"
        };
        push_whole(&mut out, ctx.chain, "ArrayDeclaration", span, copy_text(text));
        proof {
            assert(crate::collect::proposal_views(out@) =~= array_mutants(t, ctx));
        }
    } else if same(ty, "ArrowFunctionExpression") {
        let body = read_part(source, node, "body");
        if get_flag(node, "expression") && !same(body.as_str(), "undefined") {
            push_whole(&mut out, ctx.chain, "ArrowFunction", span, copy_text("() => undefined"));
        }
        proof {
            assert(crate::collect::proposal_views(out@) =~= arrow_mutants(source.text(), t, ctx));
        }
    } else if same(ty, "CallExpression") {
        return mutate_call(source, node, ctx);
    } else if same(ty, "MemberExpression") {
        return mutate_member(source, node, ctx);
    } else if same(ty, "BlockStatement") {
        return mutate_block(source, node, ctx);
    }
    out
}

} // verus!
