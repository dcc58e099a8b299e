//! Which nodes of the syntax tree are visited, in what order and in what role.
//!
//! Type space, declarations of other modules and the literal parts of imports
//! are never entered.
use vstd::prelude::*;

use crate::collect::Context;
use crate::collect::Role;
use crate::estree::get_flag;
use crate::estree::get_member_span;
use crate::estree::get_member_type;
use crate::estree::get_span;
use crate::estree::get_text;
use crate::estree::get_type;
use crate::estree::json_is_object;
use crate::estree::json_list;
use crate::estree::json_member;
use crate::estree::Span;
use crate::source::Source;
use crate::text::has_text;
use crate::text::same;

verus! {

/// The members of a type of node that may hold nodes to visit, in order.
pub open spec fn fields_of(ty: Seq<char>) -> Seq<Seq<char>> {
    if ty == "Program"@ || ty == "BlockStatement"@ || ty == "StaticBlock"@ || ty == "ClassBody"@
        || ty == "TSModuleBlock"@ || ty == "LabeledStatement"@ || ty == "TSModuleDeclaration"@ {
        seq!["body"@]
    } else if ty == "ExpressionStatement"@ || ty == "ChainExpression"@ || ty
        == "ParenthesizedExpression"@ || ty == "TSAsExpression"@ || ty == "TSSatisfiesExpression"@
        || ty == "TSTypeAssertion"@ || ty == "TSNonNullExpression"@ || ty
        == "TSInstantiationExpression"@ || ty == "TSExportAssignment"@ || ty
        == "TSExternalModuleReference"@ || ty == "JSXExpressionContainer"@ || ty
        == "JSXSpreadChild"@ {
        seq!["expression"@]
    } else if ty == "SpreadElement"@ || ty == "UpdateExpression"@ || ty == "UnaryExpression"@ || ty
        == "AwaitExpression"@ || ty == "YieldExpression"@ || ty == "ReturnStatement"@ || ty
        == "ThrowStatement"@ || ty == "JSXSpreadAttribute"@ || ty == "RestElement"@ {
        seq!["argument"@]
    } else if ty == "BinaryExpression"@ || ty == "LogicalExpression"@ || ty
        == "AssignmentExpression"@ || ty == "AssignmentPattern"@ {
        seq!["left"@, "right"@]
    } else if ty == "CallExpression"@ || ty == "NewExpression"@ {
        seq!["callee"@, "arguments"@]
    } else if ty == "MemberExpression"@ {
        seq!["object"@, "property"@]
    } else if ty == "ConditionalExpression"@ || ty == "IfStatement"@ {
        seq!["test"@, "consequent"@, "alternate"@]
    } else if ty == "ArrowFunctionExpression"@ || ty == "FunctionDeclaration"@ || ty
        == "FunctionExpression"@ || ty == "TSDeclareFunction"@ || ty
        == "TSEmptyBodyFunctionExpression"@ {
        seq!["params"@, "body"@]
    } else if ty == "VariableDeclaration"@ {
        seq!["declarations"@]
    } else if ty == "VariableDeclarator"@ {
        seq!["id"@, "init"@]
    } else if ty == "Property"@ || ty == "MethodDefinition"@ || ty == "PropertyDefinition"@ || ty
        == "AccessorProperty"@ || ty == "TSAbstractMethodDefinition"@ || ty
        == "TSAbstractPropertyDefinition"@ || ty == "TSAbstractAccessorProperty"@ {
        seq!["key"@, "value"@]
    } else if ty == "ObjectExpression"@ || ty == "ObjectPattern"@ {
        seq!["properties"@]
    } else if ty == "ArrayExpression"@ || ty == "ArrayPattern"@ {
        seq!["elements"@]
    } else if ty == "TemplateLiteral"@ || ty == "SequenceExpression"@ {
        seq!["expressions"@]
    } else if ty == "TaggedTemplateExpression"@ {
        seq!["tag"@, "quasi"@]
    } else if ty == "ForStatement"@ {
        seq!["init"@, "test"@, "update"@, "body"@]
    } else if ty == "ForInStatement"@ || ty == "ForOfStatement"@ {
        seq!["left"@, "right"@, "body"@]
    } else if ty == "WhileStatement"@ {
        seq!["test"@, "body"@]
    } else if ty == "DoWhileStatement"@ {
        seq!["body"@, "test"@]
    } else if ty == "SwitchStatement"@ {
        seq!["discriminant"@, "cases"@]
    } else if ty == "SwitchCase"@ {
        seq!["test"@, "consequent"@]
    } else if ty == "TryStatement"@ {
        seq!["block"@, "handler"@, "finalizer"@]
    } else if ty == "CatchClause"@ {
        seq!["param"@, "body"@]
    } else if ty == "WithStatement"@ {
        seq!["object"@, "body"@]
    } else if ty == "ClassDeclaration"@ || ty == "ClassExpression"@ {
        seq!["superClass"@, "body"@]
    } else if ty == "ExportNamedDeclaration"@ {
        seq!["declaration"@, "specifiers"@]
    } else if ty == "ExportDefaultDeclaration"@ {
        seq!["declaration"@]
    } else if ty == "ExportSpecifier"@ {
        seq!["local"@, "exported"@]
    } else if ty == "ImportExpression"@ {
        seq!["options"@]
    } else if ty == "JSXElement"@ {
        seq!["openingElement"@, "children"@]
    } else if ty == "JSXFragment"@ {
        seq!["children"@]
    } else if ty == "JSXOpeningElement"@ {
        seq!["attributes"@]
    } else if ty == "JSXAttribute"@ {
        seq!["value"@]
    } else if ty == "TSImportEqualsDeclaration"@ {
        seq!["moduleReference"@]
    } else if ty == "V8IntrinsicExpression"@ {
        seq!["arguments"@]
    } else {
        Seq::empty()
    }
}

/// The characters of a list of names.
pub open spec fn names(v: Seq<&'static str>) -> Seq<Seq<char>> {
    v.map_values(|s: &'static str| s@)
}

fn one(a: &'static str) -> (r: Vec<&'static str>)
    ensures
        names(r@) == seq![a@],
{
    let mut r: Vec<&'static str> = Vec::new();
    r.push(a);
    proof {
        assert(names(r@) =~= seq![a@]);
    }
    r
}

fn two(a: &'static str, b: &'static str) -> (r: Vec<&'static str>)
    ensures
        names(r@) == seq![a@, b@],
{
    let mut r: Vec<&'static str> = Vec::new();
    r.push(a);
    r.push(b);
    proof {
        assert(names(r@) =~= seq![a@, b@]);
    }
    r
}

fn three(a: &'static str, b: &'static str, c: &'static str) -> (r: Vec<&'static str>)
    ensures
        names(r@) == seq![a@, b@, c@],
{
    let mut r: Vec<&'static str> = Vec::new();
    r.push(a);
    r.push(b);
    r.push(c);
    proof {
        assert(names(r@) =~= seq![a@, b@, c@]);
    }
    r
}

/// The members of a type of node that may hold nodes to visit, in order.
fn fields(ty: &str) -> (r: Vec<&'static str>)
    ensures
        names(r@) == fields_of(ty@),
{
    if same(ty, "Program") || same(ty, "BlockStatement") || same(ty, "StaticBlock") || same(
        ty,
        "ClassBody",
    ) || same(ty, "TSModuleBlock") || same(ty, "LabeledStatement") || same(
        ty,
        "TSModuleDeclaration",
    ) {
        one("body")
    } else if same(ty, "ExpressionStatement") || same(ty, "ChainExpression") || same(
        ty,
        "ParenthesizedExpression",
    ) || same(ty, "TSAsExpression") || same(ty, "TSSatisfiesExpression") || same(
        ty,
        "TSTypeAssertion",
    ) || same(ty, "TSNonNullExpression") || same(ty, "TSInstantiationExpression") || same(
        ty,
        "TSExportAssignment",
    ) || same(ty, "TSExternalModuleReference") || same(ty, "JSXExpressionContainer") || same(
        ty,
        "JSXSpreadChild",
    ) {
        one("expression")
    } else if same(ty, "SpreadElement") || same(ty, "UpdateExpression") || same(
        ty,
        "UnaryExpression",
    ) || same(ty, "AwaitExpression") || same(ty, "YieldExpression") || same(ty, "ReturnStatement")
        || same(ty, "ThrowStatement") || same(ty, "JSXSpreadAttribute") || same(ty, "RestElement") {
        one("argument")
    } else if same(ty, "BinaryExpression") || same(ty, "LogicalExpression") || same(
        ty,
        "AssignmentExpression",
    ) || same(ty, "AssignmentPattern") {
        two("left", "right")
    } else if same(ty, "CallExpression") || same(ty, "NewExpression") {
        two("callee", "arguments")
    } else if same(ty, "MemberExpression") {
        two("object", "property")
    } else if same(ty, "ConditionalExpression") || same(ty, "IfStatement") {
        three("test", "consequent", "alternate")
    } else if same(ty, "ArrowFunctionExpression") || same(ty, "FunctionDeclaration") || same(
        ty,
        "FunctionExpression",
    ) || same(ty, "TSDeclareFunction") || same(ty, "TSEmptyBodyFunctionExpression") {
        two("params", "body")
    } else if same(ty, "VariableDeclaration") {
        one("declarations")
    } else if same(ty, "VariableDeclarator") {
        two("id", "init")
    } else if same(ty, "Property") || same(ty, "MethodDefinition") || same(
        ty,
        "PropertyDefinition",
    ) || same(ty, "AccessorProperty") || same(ty, "TSAbstractMethodDefinition") || same(
        ty,
        "TSAbstractPropertyDefinition",
    ) || same(ty, "TSAbstractAccessorProperty") {
        two("key", "value")
    } else if same(ty, "ObjectExpression") || same(ty, "ObjectPattern") {
        one("properties")
    } else if same(ty, "ArrayExpression") || same(ty, "ArrayPattern") {
        one("elements")
    } else if same(ty, "TemplateLiteral") || same(ty, "SequenceExpression") {
        one("expressions")
    } else if same(ty, "TaggedTemplateExpression") {
        two("tag", "quasi")
    } else if same(ty, "ForStatement") {
        let mut r = three("init", "test", "update");
        r.push("body");
        proof {
            assert(names(r@) =~= seq!["init"@, "test"@, "update"@].push("body"@));
            assert(names(r@) =~= seq!["init"@, "test"@, "update"@, "body"@]);
        }
        r
    } else if same(ty, "ForInStatement") || same(ty, "ForOfStatement") {
        three("left", "right", "body")
    } else if same(ty, "WhileStatement") {
        two("test", "body")
    } else if same(ty, "DoWhileStatement") {
        two("body", "test")
    } else if same(ty, "SwitchStatement") {
        two("discriminant", "cases")
    } else if same(ty, "SwitchCase") {
        two("test", "consequent")
    } else if same(ty, "TryStatement") {
        three("block", "handler", "finalizer")
    } else if same(ty, "CatchClause") {
        two("param", "body")
    } else if same(ty, "WithStatement") {
        two("object", "body")
    } else if same(ty, "ClassDeclaration") || same(ty, "ClassExpression") {
        two("superClass", "body")
    } else if same(ty, "ExportNamedDeclaration") {
        two("declaration", "specifiers")
    } else if same(ty, "ExportDefaultDeclaration") {
        one("declaration")
    } else if same(ty, "ExportSpecifier") {
        two("local", "exported")
    } else if same(ty, "ImportExpression") {
        one("options")
    } else if same(ty, "JSXElement") {
        two("openingElement", "children")
    } else if same(ty, "JSXFragment") {
        one("children")
    } else if same(ty, "JSXOpeningElement") {
        one("attributes")
    } else if same(ty, "JSXAttribute") {
        one("value")
    } else if same(ty, "TSImportEqualsDeclaration") {
        one("moduleReference")
    } else if same(ty, "V8IntrinsicExpression") {
        one("arguments")
    } else {
        let r: Vec<&'static str> = Vec::new();
        proof {
            assert(names(r@) =~= Seq::<Seq<char>>::empty());
        }
        r
    }
}

/// A call of `require`, whose specifier stays literal, or of `Symbol`, whose
/// description is identity-bearing.
pub open spec fn is_literal_call(t: crate::estree::Tree) -> bool {
    let callee = crate::estree::node_in(t, "callee"@);
    crate::estree::type_of(callee) == "Identifier"@ && (crate::estree::text_in(callee, "name"@)
        == "require"@ || crate::estree::text_in(callee, "name"@) == "Symbol"@)
}

/// A call of `require` or `Symbol`.
pub fn literal_call(node: &serde_json::Value) -> (r: bool)
    ensures
        r == is_literal_call(crate::estree::json_tree(*node)),
{
    if !same(get_member_type(node, "callee"), "Identifier") {
        return false;
    }
    let name = get_member_text(node, "callee", "name");
    same(name, "require") || same(name, "Symbol")
}

/// The text of a member of a member.
pub fn get_member_text<'a>(node: &'a serde_json::Value, outer: &str, inner: &str) -> (r: &'a str)
    ensures
        r@ == crate::estree::text_in(
            crate::estree::node_in(crate::estree::json_tree(*node), outer@),
            inner@,
        ),
{
    proof {
        reveal_strlit("");
        assert(""@ =~= Seq::<char>::empty());
    }
    match json_member(node, outer) {
        Some(found) => get_text(found, inner),
        None => "",
    }
}

/// `x as const`.
pub open spec fn is_const_assertion(t: crate::estree::Tree) -> bool {
    let annotation = crate::estree::node_in(t, "typeAnnotation"@);
    let name = crate::estree::node_in(annotation, "typeName"@);
    crate::estree::type_of(annotation) == "TSTypeReference"@ && crate::estree::type_of(name)
        == "Identifier"@ && crate::estree::text_in(name, "name"@) == "const"@
}

fn const_assertion(node: &serde_json::Value) -> (r: bool)
    ensures
        r == is_const_assertion(crate::estree::json_tree(*node)),
{
    proof {
        reveal_strlit("TSTypeReference");
        reveal_strlit("Identifier");
        assert("TSTypeReference"@.len() > 0);
        assert("Identifier"@.len() > 0);
    }
    match json_member(node, "typeAnnotation") {
        Some(annotation) => same(get_type(annotation), "TSTypeReference") && same(
            get_member_type(annotation, "typeName"),
            "Identifier",
        ) && same(get_member_text(annotation, "typeName", "name"), "const"),
        None => false,
    }
}

/// A constructor whose body calls `super`.
pub open spec fn is_super_constructor(s: Seq<char>, t: crate::estree::Tree) -> bool {
    let body = crate::estree::node_in(crate::estree::node_in(t, "value"@), "body"@);
    crate::estree::text_in(t, "kind"@) == "constructor"@ && crate::text::has(
        crate::collect::text_at(s, crate::estree::span_of(body)),
        "super("@,
    )
}

fn super_constructor(source: &Source, node: &serde_json::Value) -> (r: bool)
    ensures
        r == is_super_constructor(source.text(), crate::estree::json_tree(*node)),
{
    let span = match json_member(node, "value") {
        Some(function) => get_member_span(function, "body"),
        None => Span { start: 0, end: 0 },
    };
    let text = crate::collect::read_at(source, span);
    same(get_text(node, "kind"), "constructor") && has_text(text.as_str(), "super(")
}

/// A static member expression: `a.b`.
pub open spec fn is_static_member(t: crate::estree::Tree) -> bool {
    crate::estree::type_of(t) == "MemberExpression"@ && !crate::estree::flag_in(t, "computed"@)
        && crate::estree::type_of(crate::estree::node_in(t, "property"@)) == "Identifier"@
}

/// A static member expression: `a.b`.
pub fn static_member(node: &serde_json::Value) -> (r: bool)
    ensures
        r == is_static_member(crate::estree::json_tree(*node)),
{
    same(get_type(node), "MemberExpression") && !get_flag(node, "computed") && same(
        get_member_type(node, "property"),
        "Identifier",
    )
}

/// The chain that a member or call node is on.
pub open spec fn chain_at(t: crate::estree::Tree, ctx: Context) -> Option<Span> {
    match ctx.chain {
        Some(root) => Some(root),
        None => Some(crate::estree::span_of(t)),
    }
}

/// Keeps a role for a child that stands in the place of its parent.
pub open spec fn kept(ctx: Context, role: Role) -> Context {
    Context {
        chain: ctx.chain,
        role: if ctx.role == role {
            role
        } else {
            Role::Plain
        },
    }
}

/// Wrappers that leave a value as it is.
pub open spec fn is_wrapper(ty: Seq<char>) -> bool {
    ty == "ParenthesizedExpression"@ || ty == "TSAsExpression"@ || ty == "TSSatisfiesExpression"@
        || ty == "TSTypeAssertion"@ || ty == "TSNonNullExpression"@ || ty
        == "TSInstantiationExpression"@
}

/// Wrappers that leave a value as it is.
pub fn wrapper(ty: &str) -> (r: bool)
    ensures
        r == is_wrapper(ty@),
{
    same(ty, "ParenthesizedExpression") || same(ty, "TSAsExpression") || same(
        ty,
        "TSSatisfiesExpression",
    ) || same(ty, "TSTypeAssertion") || same(ty, "TSNonNullExpression") || same(
        ty,
        "TSInstantiationExpression",
    )
}

/// The context in which the member `field` of a node is visited; nothing where
/// it is not visited.
pub open spec fn context_of(
    s: Seq<char>,
    t: crate::estree::Tree,
    field: Seq<char>,
    ctx: Context,
) -> Option<Context> {
    let ty = crate::estree::type_of(t);
    let plain = Context { chain: ctx.chain, role: Role::Plain };
    if ty == "CallExpression"@ {
        if is_literal_call(t) {
            None
        } else if field == "callee"@ {
            Some(Context { chain: chain_at(t, ctx), role: Role::Plain })
        } else {
            Some(Context { chain: None, role: Role::Plain })
        }
    } else if ty == "MemberExpression"@ {
        if crate::estree::flag_in(t, "computed"@) {
            if field == "object"@ {
                Some(Context { chain: chain_at(t, ctx), role: Role::Plain })
            } else {
                Some(Context { chain: None, role: Role::Plain })
            }
        } else if field != "object"@ {
            None
        } else if is_static_member(t) {
            Some(Context { chain: chain_at(t, ctx), role: Role::Plain })
        } else {
            Some(plain)
        }
    } else if ty == "LogicalExpression"@ {
        if crate::estree::text_in(t, "operator"@) == "??"@ {
            Some(plain)
        } else {
            Some(Context { chain: ctx.chain, role: Role::Operand })
        }
    } else if ty == "TSAsExpression"@ && is_const_assertion(t) {
        None
    } else if is_wrapper(ty) {
        Some(kept(ctx, Role::Operand))
    } else if ty == "ExpressionStatement"@ {
        if crate::estree::member(t, "directive"@) is Some {
            None
        } else {
            Some(plain)
        }
    } else if ty == "AssignmentExpression"@ || ty == "ForInStatement"@ || ty == "ForOfStatement"@ {
        if field == "left"@ {
            Some(Context { chain: ctx.chain, role: Role::Target })
        } else {
            Some(plain)
        }
    } else if ty == "AssignmentPattern"@ {
        if field == "left"@ {
            Some(kept(ctx, Role::Target))
        } else {
            Some(plain)
        }
    } else if ty == "ObjectPattern"@ || ty == "ArrayPattern"@ || ty == "RestElement"@ {
        Some(kept(ctx, Role::Target))
    } else if ty == "Property"@ {
        if field == "value"@ {
            Some(kept(ctx, Role::Target))
        } else if crate::estree::flag_in(t, "computed"@) || ctx.role == Role::Target {
            Some(plain)
        } else {
            None
        }
    } else if ty == "WhileStatement"@ || ty == "DoWhileStatement"@ || ty == "ForStatement"@ {
        if field == "test"@ {
            Some(Context { chain: ctx.chain, role: Role::LoopTest })
        } else {
            Some(plain)
        }
    } else if ty == "FunctionDeclaration"@ || ty == "FunctionExpression"@ || ty
        == "TSDeclareFunction"@ || ty == "TSEmptyBodyFunctionExpression"@ {
        if field != "body"@ {
            Some(plain)
        } else if ctx.role == Role::Constructor {
            Some(Context { chain: ctx.chain, role: Role::ConstructorBody })
        } else {
            Some(Context { chain: ctx.chain, role: Role::Body })
        }
    } else if ty == "ArrowFunctionExpression"@ {
        if field != "body"@ || crate::estree::flag_in(t, "expression"@) {
            Some(plain)
        } else {
            Some(Context { chain: ctx.chain, role: Role::Body })
        }
    } else if ty == "MethodDefinition"@ || ty == "TSAbstractMethodDefinition"@ {
        if field == "value"@ && is_super_constructor(s, t) {
            Some(Context { chain: ctx.chain, role: Role::Constructor })
        } else {
            Some(plain)
        }
    } else if ty == "TaggedTemplateExpression"@ {
        if field == "quasi"@ {
            Some(Context { chain: ctx.chain, role: Role::Tagged })
        } else {
            Some(plain)
        }
    } else if ty == "ExportNamedDeclaration"@ {
        if crate::estree::node_in(t, "source"@) is Object {
            None
        } else {
            Some(plain)
        }
    } else if ty == "JSXAttribute"@ {
        if crate::estree::type_of(crate::estree::node_in(t, "value"@)) == "JSXExpressionContainer"@ {
            Some(plain)
        } else {
            None
        }
    } else if ty == "TSModuleDeclaration"@ {
        if crate::estree::type_of(crate::estree::node_in(t, "id"@)) == "Literal"@ {
            None
        } else {
            Some(plain)
        }
    } else {
        Some(plain)
    }
}

fn keep(ctx: Context, role: Role) -> (r: Context)
    ensures
        r == kept(ctx, role),
{
    Context {
        chain: ctx.chain,
        role: if ctx.role == role {
            role
        } else {
            Role::Plain
        },
    }
}

/// The chain that a member or call node is on.
pub fn chain_of(node: &serde_json::Value, ctx: Context) -> (r: Option<Span>)
    ensures
        r == chain_at(crate::estree::json_tree(*node), ctx),
{
    match ctx.chain {
        Some(root) => Some(root),
        None => Some(get_span(node)),
    }
}

fn member_is_object(node: &serde_json::Value, name: &str) -> (r: bool)
    ensures
        r == (crate::estree::node_in(crate::estree::json_tree(*node), name@) is Object),
{
    match json_member(node, name) {
        Some(found) => json_is_object(found),
        None => false,
    }
}

fn context(source: &Source, node: &serde_json::Value, field: &str, ctx: Context) -> (r: Option<
    Context,
>)
    ensures
        r == context_of(source.text(), crate::estree::json_tree(*node), field@, ctx),
{
    let ty = get_type(node);
    let plain = Context { chain: ctx.chain, role: Role::Plain };
    if same(ty, "CallExpression") {
        if literal_call(node) {
            None
        } else if same(field, "callee") {
            Some(Context { chain: chain_of(node, ctx), role: Role::Plain })
        } else {
            Some(Context { chain: None, role: Role::Plain })
        }
    } else if same(ty, "MemberExpression") {
        if get_flag(node, "computed") {
            if same(field, "object") {
                Some(Context { chain: chain_of(node, ctx), role: Role::Plain })
            } else {
                Some(Context { chain: None, role: Role::Plain })
            }
        } else if !same(field, "object") {
            None
        } else if static_member(node) {
            Some(Context { chain: chain_of(node, ctx), role: Role::Plain })
        } else {
            Some(plain)
        }
    } else if same(ty, "LogicalExpression") {
        if same(get_text(node, "operator"), "??") {
            Some(plain)
        } else {
            Some(Context { chain: ctx.chain, role: Role::Operand })
        }
    } else if same(ty, "TSAsExpression") && const_assertion(node) {
        None
    } else if wrapper(ty) {
        Some(keep(ctx, Role::Operand))
    } else if same(ty, "ExpressionStatement") {
        if json_member(node, "directive").is_some() {
            None
        } else {
            Some(plain)
        }
    } else if same(ty, "AssignmentExpression") || same(ty, "ForInStatement") || same(
        ty,
        "ForOfStatement",
    ) {
        if same(field, "left") {
            Some(Context { chain: ctx.chain, role: Role::Target })
        } else {
            Some(plain)
        }
    } else if same(ty, "AssignmentPattern") {
        if same(field, "left") {
            Some(keep(ctx, Role::Target))
        } else {
            Some(plain)
        }
    } else if same(ty, "ObjectPattern") || same(ty, "ArrayPattern") || same(ty, "RestElement") {
        Some(keep(ctx, Role::Target))
    } else if same(ty, "Property") {
        if same(field, "value") {
            Some(keep(ctx, Role::Target))
        } else if get_flag(node, "computed") || ctx.role == Role::Target {
            Some(plain)
        } else {
            None
        }
    } else if same(ty, "WhileStatement") || same(ty, "DoWhileStatement") || same(
        ty,
        "ForStatement",
    ) {
        if same(field, "test") {
            Some(Context { chain: ctx.chain, role: Role::LoopTest })
        } else {
            Some(plain)
        }
    } else if same(ty, "FunctionDeclaration") || same(ty, "FunctionExpression") || same(
        ty,
        "TSDeclareFunction",
    ) || same(ty, "TSEmptyBodyFunctionExpression") {
        if !same(field, "body") {
            Some(plain)
        } else if ctx.role == Role::Constructor {
            Some(Context { chain: ctx.chain, role: Role::ConstructorBody })
        } else {
            Some(Context { chain: ctx.chain, role: Role::Body })
        }
    } else if same(ty, "ArrowFunctionExpression") {
        if !same(field, "body") || get_flag(node, "expression") {
            Some(plain)
        } else {
            Some(Context { chain: ctx.chain, role: Role::Body })
        }
    } else if same(ty, "MethodDefinition") || same(ty, "TSAbstractMethodDefinition") {
        if same(field, "value") && super_constructor(source, node) {
            Some(Context { chain: ctx.chain, role: Role::Constructor })
        } else {
            Some(plain)
        }
    } else if same(ty, "TaggedTemplateExpression") {
        if same(field, "quasi") {
            Some(Context { chain: ctx.chain, role: Role::Tagged })
        } else {
            Some(plain)
        }
    } else if same(ty, "ExportNamedDeclaration") {
        if member_is_object(node, "source") {
            None
        } else {
            Some(plain)
        }
    } else if same(ty, "JSXAttribute") {
        if same(get_member_type(node, "value"), "JSXExpressionContainer") {
            Some(plain)
        } else {
            None
        }
    } else if same(ty, "TSModuleDeclaration") {
        if same(get_member_type(node, "id"), "Literal") {
            None
        } else {
            Some(plain)
        }
    } else {
        Some(plain)
    }
}

/// The nodes that a member holds: itself, or the elements of a list.
pub open spec fn nodes_of(member: Option<crate::estree::Tree>) -> Seq<crate::estree::Tree> {
    match member {
        Some(crate::estree::Tree::List(items)) => items,
        Some(node) => seq![node],
        None => Seq::empty(),
    }
}

/// Every node of a list with one context.
pub open spec fn in_context(nodes: Seq<crate::estree::Tree>, ctx: Context) -> Seq<
    (crate::estree::Tree, Context),
> {
    nodes.map_values(|t: crate::estree::Tree| (t, ctx))
}

/// The children of a node in its members `fields`.
pub open spec fn children_in(
    s: Seq<char>,
    t: crate::estree::Tree,
    fields: Seq<Seq<char>>,
    ctx: Context,
) -> Seq<(crate::estree::Tree, Context)>
    decreases fields.len(),
{
    if fields.len() == 0 {
        Seq::empty()
    } else {
        children_in(s, t, fields.drop_last(), ctx) + (match context_of(s, t, fields.last(), ctx) {
            Some(inner) => in_context(nodes_of(crate::estree::member(t, fields.last())), inner),
            None => Seq::empty(),
        })
    }
}

/// The children of a node, in the order in which they are visited.
pub open spec fn children_of(s: Seq<char>, t: crate::estree::Tree, ctx: Context) -> Seq<
    (crate::estree::Tree, Context),
> {
    children_in(s, t, fields_of(crate::estree::type_of(t)), ctx)
}

/// The trees and contexts of a list of children.
pub open spec fn child_views(v: Seq<(&serde_json::Value, Context)>) -> Seq<
    (crate::estree::Tree, Context),
> {
    v.map_values(|c: (&serde_json::Value, Context)| (crate::estree::json_tree(*c.0), c.1))
}

/// A member lies below its object.
pub proof fn lemma_member_below(t: crate::estree::Tree, name: Seq<char>)
    requires
        crate::estree::member(t, name) is Some,
    ensures
        decreases_to!(t => crate::estree::member(t, name)->0),
{
    match t {
        crate::estree::Tree::Object(m) => {
            assert(decreases_to!(t => m[name]));
        },
        _ => {},
    }
}

/// An element of a list in a member lies below the object.
pub proof fn lemma_element_below(t: crate::estree::Tree, name: Seq<char>, i: int)
    requires
        crate::estree::member(t, name) matches Some(crate::estree::Tree::List(items)) && 0 <= i
            < items.len(),
    ensures
        decreases_to!(t => (crate::estree::member(t, name)->0)->List_0[i]),
{
    lemma_member_below(t, name);
    let list = crate::estree::member(t, name)->0;
    let items = list->List_0;
    assert(decreases_to!(list => items));
    assert(decreases_to!(items => items[i]));
}

/// The children of a node, in the order in which they are visited.
pub fn children<'a>(source: &Source, node: &'a serde_json::Value, ctx: Context) -> (r: Vec<
    (&'a serde_json::Value, Context),
>)
    ensures
        child_views(r@) == children_of(source.text(), crate::estree::json_tree(*node), ctx),
        forall|k: int|
            0 <= k < r@.len() ==> decreases_to!(crate::estree::json_tree(*node) => crate::estree::json_tree(
                *(#[trigger] r@[k]).0,
            )),
{
    let ghost s = source.text();
    let ghost t = crate::estree::json_tree(*node);
    let list = fields(get_type(node));
    let ghost all = names(list@);
    let mut out: Vec<(&'a serde_json::Value, Context)> = Vec::new();
    let mut i: usize = 0;
    proof {
        assert(child_views(out@) =~= children_in(s, t, all.take(0), ctx));
    }
    while i < list.len()
        invariant
            i <= list@.len(),
            s == source.text(),
            t == crate::estree::json_tree(*node),
            all == names(list@),
            child_views(out@) == children_in(s, t, all.take(i as int), ctx),
            forall|k: int|
                0 <= k < out@.len() ==> decreases_to!(t => crate::estree::json_tree(
                    *(#[trigger] out@[k]).0,
                )),
        decreases list@.len() - i,
    {
        let field = list[i];
        let ghost before = out@;
        proof {
            assert(all.take(i + 1).drop_last() =~= all.take(i as int));
            assert(all.take(i + 1).last() == field@);
        }
        if let Some(inner) = context(source, node, field, ctx) {
            if let Some(found) = json_member(node, field) {
                let ghost held = crate::estree::json_tree(*found);
                proof {
                    lemma_member_below(t, field@);
                }
                match json_list(found) {
                    Some(items) => {
                        let ghost trees = items@.map_values(
                            |v: serde_json::Value| crate::estree::json_tree(v),
                        );
                        let mut k: usize = 0;
                        proof {
                            assert(child_views(out@) =~= child_views(before) + in_context(
                                trees.take(0),
                                inner,
                            ));
                        }
                        while k < items.len()
                            invariant
                                k <= items@.len(),
                                trees == items@.map_values(
                                    |v: serde_json::Value| crate::estree::json_tree(v),
                                ),
                                held == crate::estree::Tree::List(trees),
                                crate::estree::member(t, field@) == Some(held),
                                child_views(out@) == child_views(before) + in_context(
                                    trees.take(k as int),
                                    inner,
                                ),
                                forall|j: int|
                                    0 <= j < out@.len() ==> decreases_to!(t => crate::estree::json_tree(
                                        *(#[trigger] out@[j]).0,
                                    )),
                            decreases items@.len() - k,
                        {
                            let ghost mid = out@;
                            out.push((&items[k], inner));
                            proof {
                                lemma_element_below(t, field@, k as int);
                                assert(trees.take(k + 1) =~= trees.take(k as int).push(
                                    trees[k as int],
                                ));
                                assert(child_views(out@) =~= child_views(mid).push(
                                    (trees[k as int], inner),
                                ));
                                assert(in_context(trees.take(k + 1), inner) =~= in_context(
                                    trees.take(k as int),
                                    inner,
                                ).push((trees[k as int], inner)));
                                assert(child_views(out@) =~= child_views(before) + in_context(
                                    trees.take(k + 1),
                                    inner,
                                ));
                            }
                            k = k + 1;
                        }
                        proof {
                            assert(trees.take(items@.len() as int) =~= trees);
                        }
                    },
                    None => {
                        out.push((found, inner));
                        proof {
                            assert(in_context(seq![held], inner) =~= seq![(held, inner)]);
                            assert(child_views(out@) =~= child_views(before) + in_context(
                                seq![held],
                                inner,
                            ));
                        }
                    },
                }
            } else {
                proof {
                    assert(in_context(Seq::<crate::estree::Tree>::empty(), inner)
                        =~= Seq::<(crate::estree::Tree, Context)>::empty());
                    assert(child_views(out@) =~= child_views(before) + in_context(
                        Seq::<crate::estree::Tree>::empty(),
                        inner,
                    ));
                }
            }
        }
        i = i + 1;
        proof {
            assert(child_views(out@) =~= children_in(s, t, all.take(i as int), ctx));
        }
    }
    proof {
        assert(all.take(list@.len() as int) =~= all);
    }
    out
}

} // verus!
