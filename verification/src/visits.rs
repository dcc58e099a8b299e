//! Which nodes of a syntax tree are visited, and what is known of each there.
use vstd::prelude::*;

use crate::collect::Context;
use crate::collect::Role;
use crate::estree::Tree;

verus! {

proof fn lemma_all_types_differ()
    ensures
        "Program"@.len() == 7,
        "BlockStatement"@.len() == 14 && "BlockStatement"@[0] == 'B',
        "StaticBlock"@.len() == 11 && "StaticBlock"@[0] == 'S',
        "ClassBody"@.len() == 9,
        "TSModuleBlock"@.len() == 13 && "TSModuleBlock"@[0] == 'T',
        "LabeledStatement"@.len() == 16 && "LabeledStatement"@[0] == 'L',
        "TSModuleDeclaration"@.len() == 19 && "TSModuleDeclaration"@[0] == 'T' && "TSModuleDeclaration"@[2] == 'M',
        "ExpressionStatement"@.len() == 19 && "ExpressionStatement"@[0] == 'E',
        "ChainExpression"@.len() == 15 && "ChainExpression"@[0] == 'C' && "ChainExpression"@[1] == 'h',
        "ParenthesizedExpression"@.len() == 23 && "ParenthesizedExpression"@[0] == 'P',
        "TSAsExpression"@.len() == 14 && "TSAsExpression"@[0] == 'T' && "TSAsExpression"@[1] == 'S',
        "TSSatisfiesExpression"@.len() == 21 && "TSSatisfiesExpression"@[0] == 'T',
        "TSTypeAssertion"@.len() == 15 && "TSTypeAssertion"@[0] == 'T' && "TSTypeAssertion"@[1] == 'S',
        "TSNonNullExpression"@.len() == 19 && "TSNonNullExpression"@[0] == 'T' && "TSNonNullExpression"@[2] == 'N',
        "TSInstantiationExpression"@.len() == 25 && "TSInstantiationExpression"@[2] == 'I' && "TSInstantiationExpression"@[3] == 'n',
        "TSExportAssignment"@.len() == 18 && "TSExportAssignment"@[0] == 'T',
        "TSExternalModuleReference"@.len() == 25 && "TSExternalModuleReference"@[2] == 'E',
        "JSXExpressionContainer"@.len() == 22 && "JSXExpressionContainer"@[0] == 'J',
        "JSXSpreadChild"@.len() == 14 && "JSXSpreadChild"@[0] == 'J',
        "SpreadElement"@.len() == 13 && "SpreadElement"@[0] == 'S',
        "UpdateExpression"@.len() == 16 && "UpdateExpression"@[0] == 'U',
        "UnaryExpression"@.len() == 15 && "UnaryExpression"@[0] == 'U',
        "AwaitExpression"@.len() == 15 && "AwaitExpression"@[0] == 'A' && "AwaitExpression"@[1] == 'w',
        "YieldExpression"@.len() == 15 && "YieldExpression"@[0] == 'Y',
        "ReturnStatement"@.len() == 15 && "ReturnStatement"@[0] == 'R',
        "ThrowStatement"@.len() == 14 && "ThrowStatement"@[0] == 'T' && "ThrowStatement"@[1] == 'h',
        "JSXSpreadAttribute"@.len() == 18 && "JSXSpreadAttribute"@[0] == 'J',
        "RestElement"@.len() == 11 && "RestElement"@[0] == 'R',
        "BinaryExpression"@.len() == 16 && "BinaryExpression"@[0] == 'B',
        "LogicalExpression"@.len() == 17 && "LogicalExpression"@[0] == 'L',
        "AssignmentExpression"@.len() == 20,
        "AssignmentPattern"@.len() == 17 && "AssignmentPattern"@[0] == 'A',
        "CallExpression"@.len() == 14 && "CallExpression"@[0] == 'C',
        "NewExpression"@.len() == 13 && "NewExpression"@[0] == 'N',
        "MemberExpression"@.len() == 16 && "MemberExpression"@[0] == 'M' && "MemberExpression"@[2] == 'm',
        "ConditionalExpression"@.len() == 21 && "ConditionalExpression"@[0] == 'C',
        "IfStatement"@.len() == 11 && "IfStatement"@[0] == 'I',
        "ArrowFunctionExpression"@.len() == 23 && "ArrowFunctionExpression"@[0] == 'A',
        "FunctionDeclaration"@.len() == 19 && "FunctionDeclaration"@[0] == 'F',
        "FunctionExpression"@.len() == 18 && "FunctionExpression"@[0] == 'F',
        "TSDeclareFunction"@.len() == 17 && "TSDeclareFunction"@[0] == 'T',
        "TSEmptyBodyFunctionExpression"@.len() == 29,
        "VariableDeclaration"@.len() == 19 && "VariableDeclaration"@[0] == 'V',
        "VariableDeclarator"@.len() == 18 && "VariableDeclarator"@[0] == 'V',
        "Property"@.len() == 8,
        "MethodDefinition"@.len() == 16 && "MethodDefinition"@[0] == 'M' && "MethodDefinition"@[2] == 't',
        "PropertyDefinition"@.len() == 18 && "PropertyDefinition"@[0] == 'P',
        "AccessorProperty"@.len() == 16 && "AccessorProperty"@[0] == 'A',
        "TSAbstractMethodDefinition"@.len() == 26 && "TSAbstractMethodDefinition"@[10] == 'M',
        "TSAbstractPropertyDefinition"@.len() == 28,
        "TSAbstractAccessorProperty"@.len() == 26 && "TSAbstractAccessorProperty"@[10] == 'A',
        "ObjectExpression"@.len() == 16 && "ObjectExpression"@[0] == 'O',
        "ObjectPattern"@.len() == 13 && "ObjectPattern"@[0] == 'O',
        "ArrayExpression"@.len() == 15 && "ArrayExpression"@[0] == 'A' && "ArrayExpression"@[1] == 'r',
        "ArrayPattern"@.len() == 12 && "ArrayPattern"@[0] == 'A',
        "TemplateLiteral"@.len() == 15 && "TemplateLiteral"@[0] == 'T' && "TemplateLiteral"@[1] == 'e',
        "SequenceExpression"@.len() == 18 && "SequenceExpression"@[0] == 'S',
        "TaggedTemplateExpression"@.len() == 24 && "TaggedTemplateExpression"@[0] == 'T',
        "ForStatement"@.len() == 12 && "ForStatement"@[0] == 'F',
        "ForInStatement"@.len() == 14 && "ForInStatement"@[0] == 'F' && "ForInStatement"@[3] == 'I',
        "ForOfStatement"@.len() == 14 && "ForOfStatement"@[0] == 'F' && "ForOfStatement"@[3] == 'O',
        "WhileStatement"@.len() == 14 && "WhileStatement"@[0] == 'W',
        "DoWhileStatement"@.len() == 16 && "DoWhileStatement"@[0] == 'D',
        "SwitchStatement"@.len() == 15 && "SwitchStatement"@[0] == 'S',
        "SwitchCase"@.len() == 10 && "SwitchCase"@[0] == 'S',
        "TryStatement"@.len() == 12 && "TryStatement"@[0] == 'T',
        "CatchClause"@.len() == 11 && "CatchClause"@[0] == 'C',
        "WithStatement"@.len() == 13 && "WithStatement"@[0] == 'W',
        "ClassDeclaration"@.len() == 16 && "ClassDeclaration"@[0] == 'C',
        "ClassExpression"@.len() == 15 && "ClassExpression"@[0] == 'C' && "ClassExpression"@[1] == 'l',
        "ExportNamedDeclaration"@.len() == 22 && "ExportNamedDeclaration"@[0] == 'E',
        "ExportDefaultDeclaration"@.len() == 24 && "ExportDefaultDeclaration"@[0] == 'E',
        "ExportSpecifier"@.len() == 15 && "ExportSpecifier"@[0] == 'E',
        "ImportExpression"@.len() == 16 && "ImportExpression"@[0] == 'I',
        "JSXElement"@.len() == 10 && "JSXElement"@[0] == 'J',
        "JSXFragment"@.len() == 11 && "JSXFragment"@[0] == 'J',
        "JSXOpeningElement"@.len() == 17 && "JSXOpeningElement"@[0] == 'J',
        "JSXAttribute"@.len() == 12 && "JSXAttribute"@[0] == 'J',
        "TSImportEqualsDeclaration"@.len() == 25 && "TSImportEqualsDeclaration"@[2] == 'I' && "TSImportEqualsDeclaration"@[3] == 'm',
        "V8IntrinsicExpression"@.len() == 21 && "V8IntrinsicExpression"@[0] == 'V',
{
    reveal_strlit("Program");
    reveal_strlit("BlockStatement");
    reveal_strlit("StaticBlock");
    reveal_strlit("ClassBody");
    reveal_strlit("TSModuleBlock");
    reveal_strlit("LabeledStatement");
    reveal_strlit("TSModuleDeclaration");
    reveal_strlit("ExpressionStatement");
    reveal_strlit("ChainExpression");
    reveal_strlit("ParenthesizedExpression");
    reveal_strlit("TSAsExpression");
    reveal_strlit("TSSatisfiesExpression");
    reveal_strlit("TSTypeAssertion");
    reveal_strlit("TSNonNullExpression");
    reveal_strlit("TSInstantiationExpression");
    reveal_strlit("TSExportAssignment");
    reveal_strlit("TSExternalModuleReference");
    reveal_strlit("JSXExpressionContainer");
    reveal_strlit("JSXSpreadChild");
    reveal_strlit("SpreadElement");
    reveal_strlit("UpdateExpression");
    reveal_strlit("UnaryExpression");
    reveal_strlit("AwaitExpression");
    reveal_strlit("YieldExpression");
    reveal_strlit("ReturnStatement");
    reveal_strlit("ThrowStatement");
    reveal_strlit("JSXSpreadAttribute");
    reveal_strlit("RestElement");
    reveal_strlit("BinaryExpression");
    reveal_strlit("LogicalExpression");
    reveal_strlit("AssignmentExpression");
    reveal_strlit("AssignmentPattern");
    reveal_strlit("CallExpression");
    reveal_strlit("NewExpression");
    reveal_strlit("MemberExpression");
    reveal_strlit("ConditionalExpression");
    reveal_strlit("IfStatement");
    reveal_strlit("ArrowFunctionExpression");
    reveal_strlit("FunctionDeclaration");
    reveal_strlit("FunctionExpression");
    reveal_strlit("TSDeclareFunction");
    reveal_strlit("TSEmptyBodyFunctionExpression");
    reveal_strlit("VariableDeclaration");
    reveal_strlit("VariableDeclarator");
    reveal_strlit("Property");
    reveal_strlit("MethodDefinition");
    reveal_strlit("PropertyDefinition");
    reveal_strlit("AccessorProperty");
    reveal_strlit("TSAbstractMethodDefinition");
    reveal_strlit("TSAbstractPropertyDefinition");
    reveal_strlit("TSAbstractAccessorProperty");
    reveal_strlit("ObjectExpression");
    reveal_strlit("ObjectPattern");
    reveal_strlit("ArrayExpression");
    reveal_strlit("ArrayPattern");
    reveal_strlit("TemplateLiteral");
    reveal_strlit("SequenceExpression");
    reveal_strlit("TaggedTemplateExpression");
    reveal_strlit("ForStatement");
    reveal_strlit("ForInStatement");
    reveal_strlit("ForOfStatement");
    reveal_strlit("WhileStatement");
    reveal_strlit("DoWhileStatement");
    reveal_strlit("SwitchStatement");
    reveal_strlit("SwitchCase");
    reveal_strlit("TryStatement");
    reveal_strlit("CatchClause");
    reveal_strlit("WithStatement");
    reveal_strlit("ClassDeclaration");
    reveal_strlit("ClassExpression");
    reveal_strlit("ExportNamedDeclaration");
    reveal_strlit("ExportDefaultDeclaration");
    reveal_strlit("ExportSpecifier");
    reveal_strlit("ImportExpression");
    reveal_strlit("JSXElement");
    reveal_strlit("JSXFragment");
    reveal_strlit("JSXOpeningElement");
    reveal_strlit("JSXAttribute");
    reveal_strlit("TSImportEqualsDeclaration");
    reveal_strlit("V8IntrinsicExpression");
    assert("Program"@.len() == 7);
    assert("BlockStatement"@.len() == 14 && "BlockStatement"@[0] == 'B');
    assert("StaticBlock"@.len() == 11 && "StaticBlock"@[0] == 'S');
    assert("ClassBody"@.len() == 9);
    assert("TSModuleBlock"@.len() == 13 && "TSModuleBlock"@[0] == 'T');
    assert("LabeledStatement"@.len() == 16 && "LabeledStatement"@[0] == 'L');
    assert("TSModuleDeclaration"@.len() == 19 && "TSModuleDeclaration"@[0] == 'T' && "TSModuleDeclaration"@[2] == 'M');
    assert("ExpressionStatement"@.len() == 19 && "ExpressionStatement"@[0] == 'E');
    assert("ChainExpression"@.len() == 15 && "ChainExpression"@[0] == 'C' && "ChainExpression"@[1] == 'h');
    assert("ParenthesizedExpression"@.len() == 23 && "ParenthesizedExpression"@[0] == 'P');
    assert("TSAsExpression"@.len() == 14 && "TSAsExpression"@[0] == 'T' && "TSAsExpression"@[1] == 'S');
    assert("TSSatisfiesExpression"@.len() == 21 && "TSSatisfiesExpression"@[0] == 'T');
    assert("TSTypeAssertion"@.len() == 15 && "TSTypeAssertion"@[0] == 'T' && "TSTypeAssertion"@[1] == 'S');
    assert("TSNonNullExpression"@.len() == 19 && "TSNonNullExpression"@[0] == 'T' && "TSNonNullExpression"@[2] == 'N');
    assert("TSInstantiationExpression"@.len() == 25 && "TSInstantiationExpression"@[2] == 'I' && "TSInstantiationExpression"@[3] == 'n');
    assert("TSExportAssignment"@.len() == 18 && "TSExportAssignment"@[0] == 'T');
    assert("TSExternalModuleReference"@.len() == 25 && "TSExternalModuleReference"@[2] == 'E');
    assert("JSXExpressionContainer"@.len() == 22 && "JSXExpressionContainer"@[0] == 'J');
    assert("JSXSpreadChild"@.len() == 14 && "JSXSpreadChild"@[0] == 'J');
    assert("SpreadElement"@.len() == 13 && "SpreadElement"@[0] == 'S');
    assert("UpdateExpression"@.len() == 16 && "UpdateExpression"@[0] == 'U');
    assert("UnaryExpression"@.len() == 15 && "UnaryExpression"@[0] == 'U');
    assert("AwaitExpression"@.len() == 15 && "AwaitExpression"@[0] == 'A' && "AwaitExpression"@[1] == 'w');
    assert("YieldExpression"@.len() == 15 && "YieldExpression"@[0] == 'Y');
    assert("ReturnStatement"@.len() == 15 && "ReturnStatement"@[0] == 'R');
    assert("ThrowStatement"@.len() == 14 && "ThrowStatement"@[0] == 'T' && "ThrowStatement"@[1] == 'h');
    assert("JSXSpreadAttribute"@.len() == 18 && "JSXSpreadAttribute"@[0] == 'J');
    assert("RestElement"@.len() == 11 && "RestElement"@[0] == 'R');
    assert("BinaryExpression"@.len() == 16 && "BinaryExpression"@[0] == 'B');
    assert("LogicalExpression"@.len() == 17 && "LogicalExpression"@[0] == 'L');
    assert("AssignmentExpression"@.len() == 20);
    assert("AssignmentPattern"@.len() == 17 && "AssignmentPattern"@[0] == 'A');
    assert("CallExpression"@.len() == 14 && "CallExpression"@[0] == 'C');
    assert("NewExpression"@.len() == 13 && "NewExpression"@[0] == 'N');
    assert("MemberExpression"@.len() == 16 && "MemberExpression"@[0] == 'M' && "MemberExpression"@[2] == 'm');
    assert("ConditionalExpression"@.len() == 21 && "ConditionalExpression"@[0] == 'C');
    assert("IfStatement"@.len() == 11 && "IfStatement"@[0] == 'I');
    assert("ArrowFunctionExpression"@.len() == 23 && "ArrowFunctionExpression"@[0] == 'A');
    assert("FunctionDeclaration"@.len() == 19 && "FunctionDeclaration"@[0] == 'F');
    assert("FunctionExpression"@.len() == 18 && "FunctionExpression"@[0] == 'F');
    assert("TSDeclareFunction"@.len() == 17 && "TSDeclareFunction"@[0] == 'T');
    assert("TSEmptyBodyFunctionExpression"@.len() == 29);
    assert("VariableDeclaration"@.len() == 19 && "VariableDeclaration"@[0] == 'V');
    assert("VariableDeclarator"@.len() == 18 && "VariableDeclarator"@[0] == 'V');
    assert("Property"@.len() == 8);
    assert("MethodDefinition"@.len() == 16 && "MethodDefinition"@[0] == 'M' && "MethodDefinition"@[2] == 't');
    assert("PropertyDefinition"@.len() == 18 && "PropertyDefinition"@[0] == 'P');
    assert("AccessorProperty"@.len() == 16 && "AccessorProperty"@[0] == 'A');
    assert("TSAbstractMethodDefinition"@.len() == 26 && "TSAbstractMethodDefinition"@[10] == 'M');
    assert("TSAbstractPropertyDefinition"@.len() == 28);
    assert("TSAbstractAccessorProperty"@.len() == 26 && "TSAbstractAccessorProperty"@[10] == 'A');
    assert("ObjectExpression"@.len() == 16 && "ObjectExpression"@[0] == 'O');
    assert("ObjectPattern"@.len() == 13 && "ObjectPattern"@[0] == 'O');
    assert("ArrayExpression"@.len() == 15 && "ArrayExpression"@[0] == 'A' && "ArrayExpression"@[1] == 'r');
    assert("ArrayPattern"@.len() == 12 && "ArrayPattern"@[0] == 'A');
    assert("TemplateLiteral"@.len() == 15 && "TemplateLiteral"@[0] == 'T' && "TemplateLiteral"@[1] == 'e');
    assert("SequenceExpression"@.len() == 18 && "SequenceExpression"@[0] == 'S');
    assert("TaggedTemplateExpression"@.len() == 24 && "TaggedTemplateExpression"@[0] == 'T');
    assert("ForStatement"@.len() == 12 && "ForStatement"@[0] == 'F');
    assert("ForInStatement"@.len() == 14 && "ForInStatement"@[0] == 'F' && "ForInStatement"@[3] == 'I');
    assert("ForOfStatement"@.len() == 14 && "ForOfStatement"@[0] == 'F' && "ForOfStatement"@[3] == 'O');
    assert("WhileStatement"@.len() == 14 && "WhileStatement"@[0] == 'W');
    assert("DoWhileStatement"@.len() == 16 && "DoWhileStatement"@[0] == 'D');
    assert("SwitchStatement"@.len() == 15 && "SwitchStatement"@[0] == 'S');
    assert("SwitchCase"@.len() == 10 && "SwitchCase"@[0] == 'S');
    assert("TryStatement"@.len() == 12 && "TryStatement"@[0] == 'T');
    assert("CatchClause"@.len() == 11 && "CatchClause"@[0] == 'C');
    assert("WithStatement"@.len() == 13 && "WithStatement"@[0] == 'W');
    assert("ClassDeclaration"@.len() == 16 && "ClassDeclaration"@[0] == 'C');
    assert("ClassExpression"@.len() == 15 && "ClassExpression"@[0] == 'C' && "ClassExpression"@[1] == 'l');
    assert("ExportNamedDeclaration"@.len() == 22 && "ExportNamedDeclaration"@[0] == 'E');
    assert("ExportDefaultDeclaration"@.len() == 24 && "ExportDefaultDeclaration"@[0] == 'E');
    assert("ExportSpecifier"@.len() == 15 && "ExportSpecifier"@[0] == 'E');
    assert("ImportExpression"@.len() == 16 && "ImportExpression"@[0] == 'I');
    assert("JSXElement"@.len() == 10 && "JSXElement"@[0] == 'J');
    assert("JSXFragment"@.len() == 11 && "JSXFragment"@[0] == 'J');
    assert("JSXOpeningElement"@.len() == 17 && "JSXOpeningElement"@[0] == 'J');
    assert("JSXAttribute"@.len() == 12 && "JSXAttribute"@[0] == 'J');
    assert("TSImportEqualsDeclaration"@.len() == 25 && "TSImportEqualsDeclaration"@[2] == 'I' && "TSImportEqualsDeclaration"@[3] == 'm');
    assert("V8IntrinsicExpression"@.len() == 21 && "V8IntrinsicExpression"@[0] == 'V');
}

/// The parts of a node that are visited, for every kind of node, in order; a node
/// of any other kind has none.
pub proof fn law_visited_parts(ty: Seq<char>)
    ensures
        (ty == "Program"@ || ty == "BlockStatement"@ || ty == "StaticBlock"@ || ty == "ClassBody"@ || ty == "TSModuleBlock"@ || ty == "LabeledStatement"@ || ty == "TSModuleDeclaration"@) ==> crate::walk::fields_of(ty) == seq!["body"@],
        (ty == "ExpressionStatement"@ || ty == "ChainExpression"@ || ty == "ParenthesizedExpression"@ || ty == "TSAsExpression"@ || ty == "TSSatisfiesExpression"@ || ty == "TSTypeAssertion"@ || ty == "TSNonNullExpression"@ || ty == "TSInstantiationExpression"@ || ty == "TSExportAssignment"@ || ty == "TSExternalModuleReference"@ || ty == "JSXExpressionContainer"@ || ty == "JSXSpreadChild"@) ==> crate::walk::fields_of(ty) == seq!["expression"@],
        (ty == "SpreadElement"@ || ty == "UpdateExpression"@ || ty == "UnaryExpression"@ || ty == "AwaitExpression"@ || ty == "YieldExpression"@ || ty == "ReturnStatement"@ || ty == "ThrowStatement"@ || ty == "JSXSpreadAttribute"@ || ty == "RestElement"@) ==> crate::walk::fields_of(ty) == seq!["argument"@],
        (ty == "BinaryExpression"@ || ty == "LogicalExpression"@ || ty == "AssignmentExpression"@ || ty == "AssignmentPattern"@) ==> crate::walk::fields_of(ty) == seq!["left"@, "right"@],
        (ty == "CallExpression"@ || ty == "NewExpression"@) ==> crate::walk::fields_of(ty) == seq!["callee"@, "arguments"@],
        (ty == "MemberExpression"@) ==> crate::walk::fields_of(ty) == seq!["object"@, "property"@],
        (ty == "ConditionalExpression"@ || ty == "IfStatement"@) ==> crate::walk::fields_of(ty) == seq!["test"@, "consequent"@, "alternate"@],
        (ty == "ArrowFunctionExpression"@ || ty == "FunctionDeclaration"@ || ty == "FunctionExpression"@ || ty == "TSDeclareFunction"@ || ty == "TSEmptyBodyFunctionExpression"@) ==> crate::walk::fields_of(ty) == seq!["params"@, "body"@],
        (ty == "VariableDeclaration"@) ==> crate::walk::fields_of(ty) == seq!["declarations"@],
        (ty == "VariableDeclarator"@) ==> crate::walk::fields_of(ty) == seq!["id"@, "init"@],
        (ty == "Property"@ || ty == "MethodDefinition"@ || ty == "PropertyDefinition"@ || ty == "AccessorProperty"@ || ty == "TSAbstractMethodDefinition"@ || ty == "TSAbstractPropertyDefinition"@ || ty == "TSAbstractAccessorProperty"@) ==> crate::walk::fields_of(ty) == seq!["key"@, "value"@],
        (ty == "ObjectExpression"@ || ty == "ObjectPattern"@) ==> crate::walk::fields_of(ty) == seq!["properties"@],
        (ty == "ArrayExpression"@ || ty == "ArrayPattern"@) ==> crate::walk::fields_of(ty) == seq!["elements"@],
        (ty == "TemplateLiteral"@ || ty == "SequenceExpression"@) ==> crate::walk::fields_of(ty) == seq!["expressions"@],
        (ty == "TaggedTemplateExpression"@) ==> crate::walk::fields_of(ty) == seq!["tag"@, "quasi"@],
        (ty == "ForStatement"@) ==> crate::walk::fields_of(ty) == seq!["init"@, "test"@, "update"@, "body"@],
        (ty == "ForInStatement"@ || ty == "ForOfStatement"@) ==> crate::walk::fields_of(ty) == seq!["left"@, "right"@, "body"@],
        (ty == "WhileStatement"@) ==> crate::walk::fields_of(ty) == seq!["test"@, "body"@],
        (ty == "DoWhileStatement"@) ==> crate::walk::fields_of(ty) == seq!["body"@, "test"@],
        (ty == "SwitchStatement"@) ==> crate::walk::fields_of(ty) == seq!["discriminant"@, "cases"@],
        (ty == "SwitchCase"@) ==> crate::walk::fields_of(ty) == seq!["test"@, "consequent"@],
        (ty == "TryStatement"@) ==> crate::walk::fields_of(ty) == seq!["block"@, "handler"@, "finalizer"@],
        (ty == "CatchClause"@) ==> crate::walk::fields_of(ty) == seq!["param"@, "body"@],
        (ty == "WithStatement"@) ==> crate::walk::fields_of(ty) == seq!["object"@, "body"@],
        (ty == "ClassDeclaration"@ || ty == "ClassExpression"@) ==> crate::walk::fields_of(ty) == seq!["superClass"@, "body"@],
        (ty == "ExportNamedDeclaration"@) ==> crate::walk::fields_of(ty) == seq!["declaration"@, "specifiers"@],
        (ty == "ExportDefaultDeclaration"@) ==> crate::walk::fields_of(ty) == seq!["declaration"@],
        (ty == "ExportSpecifier"@) ==> crate::walk::fields_of(ty) == seq!["local"@, "exported"@],
        (ty == "ImportExpression"@) ==> crate::walk::fields_of(ty) == seq!["options"@],
        (ty == "JSXElement"@) ==> crate::walk::fields_of(ty) == seq!["openingElement"@, "children"@],
        (ty == "JSXFragment"@) ==> crate::walk::fields_of(ty) == seq!["children"@],
        (ty == "JSXOpeningElement"@) ==> crate::walk::fields_of(ty) == seq!["attributes"@],
        (ty == "JSXAttribute"@) ==> crate::walk::fields_of(ty) == seq!["value"@],
        (ty == "TSImportEqualsDeclaration"@) ==> crate::walk::fields_of(ty) == seq!["moduleReference"@],
        (ty == "V8IntrinsicExpression"@) ==> crate::walk::fields_of(ty) == seq!["arguments"@],
        ty != "Program"@ && ty != "BlockStatement"@ && ty != "StaticBlock"@ && ty != "ClassBody"@ && ty != "TSModuleBlock"@ && ty != "LabeledStatement"@ && ty != "TSModuleDeclaration"@ && ty != "ExpressionStatement"@ && ty != "ChainExpression"@ && ty != "ParenthesizedExpression"@ && ty != "TSAsExpression"@ && ty != "TSSatisfiesExpression"@ && ty != "TSTypeAssertion"@ && ty != "TSNonNullExpression"@ && ty != "TSInstantiationExpression"@ && ty != "TSExportAssignment"@ && ty != "TSExternalModuleReference"@ && ty != "JSXExpressionContainer"@ && ty != "JSXSpreadChild"@ && ty != "SpreadElement"@ && ty != "UpdateExpression"@ && ty != "UnaryExpression"@ && ty != "AwaitExpression"@ && ty != "YieldExpression"@ && ty != "ReturnStatement"@ && ty != "ThrowStatement"@ && ty != "JSXSpreadAttribute"@ && ty != "RestElement"@ && ty != "BinaryExpression"@ && ty != "LogicalExpression"@ && ty != "AssignmentExpression"@ && ty != "AssignmentPattern"@ && ty != "CallExpression"@ && ty != "NewExpression"@ && ty != "MemberExpression"@ && ty != "ConditionalExpression"@ && ty != "IfStatement"@ && ty != "ArrowFunctionExpression"@ && ty != "FunctionDeclaration"@ && ty != "FunctionExpression"@ && ty != "TSDeclareFunction"@ && ty != "TSEmptyBodyFunctionExpression"@ && ty != "VariableDeclaration"@ && ty != "VariableDeclarator"@ && ty != "Property"@ && ty != "MethodDefinition"@ && ty != "PropertyDefinition"@ && ty != "AccessorProperty"@ && ty != "TSAbstractMethodDefinition"@ && ty != "TSAbstractPropertyDefinition"@ && ty != "TSAbstractAccessorProperty"@ && ty != "ObjectExpression"@ && ty != "ObjectPattern"@ && ty != "ArrayExpression"@ && ty != "ArrayPattern"@ && ty != "TemplateLiteral"@ && ty != "SequenceExpression"@ && ty != "TaggedTemplateExpression"@ && ty != "ForStatement"@ && ty != "ForInStatement"@ && ty != "ForOfStatement"@ && ty != "WhileStatement"@ && ty != "DoWhileStatement"@ && ty != "SwitchStatement"@ && ty != "SwitchCase"@ && ty != "TryStatement"@ && ty != "CatchClause"@ && ty != "WithStatement"@ && ty != "ClassDeclaration"@ && ty != "ClassExpression"@ && ty != "ExportNamedDeclaration"@ && ty != "ExportDefaultDeclaration"@ && ty != "ExportSpecifier"@ && ty != "ImportExpression"@ && ty != "JSXElement"@ && ty != "JSXFragment"@ && ty != "JSXOpeningElement"@ && ty != "JSXAttribute"@ && ty != "TSImportEqualsDeclaration"@ && ty != "V8IntrinsicExpression"@
            ==> crate::walk::fields_of(ty).len() == 0,
{
    lemma_all_types_differ();
    if ty == "Program"@ {
        assert(crate::walk::fields_of(ty) =~= seq!["body"@]);
    }
    if ty == "BlockStatement"@ {
        assert(crate::walk::fields_of(ty) =~= seq!["body"@]);
    }
    if ty == "StaticBlock"@ {
        assert(crate::walk::fields_of(ty) =~= seq!["body"@]);
    }
    if ty == "ClassBody"@ {
        assert(crate::walk::fields_of(ty) =~= seq!["body"@]);
    }
    if ty == "TSModuleBlock"@ {
        assert(crate::walk::fields_of(ty) =~= seq!["body"@]);
    }
    if ty == "LabeledStatement"@ {
        assert(crate::walk::fields_of(ty) =~= seq!["body"@]);
    }
    if ty == "TSModuleDeclaration"@ {
        assert(crate::walk::fields_of(ty) =~= seq!["body"@]);
    }
    if ty == "ExpressionStatement"@ {
        assert(crate::walk::fields_of(ty) =~= seq!["expression"@]);
    }
    if ty == "ChainExpression"@ {
        assert(crate::walk::fields_of(ty) =~= seq!["expression"@]);
    }
    if ty == "ParenthesizedExpression"@ {
        assert(crate::walk::fields_of(ty) =~= seq!["expression"@]);
    }
    if ty == "TSAsExpression"@ {
        assert(crate::walk::fields_of(ty) =~= seq!["expression"@]);
    }
    if ty == "TSSatisfiesExpression"@ {
        assert(crate::walk::fields_of(ty) =~= seq!["expression"@]);
    }
    if ty == "TSTypeAssertion"@ {
        assert(crate::walk::fields_of(ty) =~= seq!["expression"@]);
    }
    if ty == "TSNonNullExpression"@ {
        assert(crate::walk::fields_of(ty) =~= seq!["expression"@]);
    }
    if ty == "TSInstantiationExpression"@ {
        assert(crate::walk::fields_of(ty) =~= seq!["expression"@]);
    }
    if ty == "TSExportAssignment"@ {
        assert(crate::walk::fields_of(ty) =~= seq!["expression"@]);
    }
    if ty == "TSExternalModuleReference"@ {
        assert(crate::walk::fields_of(ty) =~= seq!["expression"@]);
    }
    if ty == "JSXExpressionContainer"@ {
        assert(crate::walk::fields_of(ty) =~= seq!["expression"@]);
    }
    if ty == "JSXSpreadChild"@ {
        assert(crate::walk::fields_of(ty) =~= seq!["expression"@]);
    }
    if ty == "SpreadElement"@ {
        assert(crate::walk::fields_of(ty) =~= seq!["argument"@]);
    }
    if ty == "UpdateExpression"@ {
        assert(crate::walk::fields_of(ty) =~= seq!["argument"@]);
    }
    if ty == "UnaryExpression"@ {
        assert(crate::walk::fields_of(ty) =~= seq!["argument"@]);
    }
    if ty == "AwaitExpression"@ {
        assert(crate::walk::fields_of(ty) =~= seq!["argument"@]);
    }
    if ty == "YieldExpression"@ {
        assert(crate::walk::fields_of(ty) =~= seq!["argument"@]);
    }
    if ty == "ReturnStatement"@ {
        assert(crate::walk::fields_of(ty) =~= seq!["argument"@]);
    }
    if ty == "ThrowStatement"@ {
        assert(crate::walk::fields_of(ty) =~= seq!["argument"@]);
    }
    if ty == "JSXSpreadAttribute"@ {
        assert(crate::walk::fields_of(ty) =~= seq!["argument"@]);
    }
    if ty == "RestElement"@ {
        assert(crate::walk::fields_of(ty) =~= seq!["argument"@]);
    }
    if ty == "BinaryExpression"@ {
        assert(crate::walk::fields_of(ty) =~= seq!["left"@, "right"@]);
    }
    if ty == "LogicalExpression"@ {
        assert(crate::walk::fields_of(ty) =~= seq!["left"@, "right"@]);
    }
    if ty == "AssignmentExpression"@ {
        assert(crate::walk::fields_of(ty) =~= seq!["left"@, "right"@]);
    }
    if ty == "AssignmentPattern"@ {
        assert(crate::walk::fields_of(ty) =~= seq!["left"@, "right"@]);
    }
    if ty == "CallExpression"@ {
        assert(crate::walk::fields_of(ty) =~= seq!["callee"@, "arguments"@]);
    }
    if ty == "NewExpression"@ {
        assert(crate::walk::fields_of(ty) =~= seq!["callee"@, "arguments"@]);
    }
    if ty == "MemberExpression"@ {
        assert(crate::walk::fields_of(ty) =~= seq!["object"@, "property"@]);
    }
    if ty == "ConditionalExpression"@ {
        assert(crate::walk::fields_of(ty) =~= seq!["test"@, "consequent"@, "alternate"@]);
    }
    if ty == "IfStatement"@ {
        assert(crate::walk::fields_of(ty) =~= seq!["test"@, "consequent"@, "alternate"@]);
    }
    if ty == "ArrowFunctionExpression"@ {
        assert(crate::walk::fields_of(ty) =~= seq!["params"@, "body"@]);
    }
    if ty == "FunctionDeclaration"@ {
        assert(crate::walk::fields_of(ty) =~= seq!["params"@, "body"@]);
    }
    if ty == "FunctionExpression"@ {
        assert(crate::walk::fields_of(ty) =~= seq!["params"@, "body"@]);
    }
    if ty == "TSDeclareFunction"@ {
        assert(crate::walk::fields_of(ty) =~= seq!["params"@, "body"@]);
    }
    if ty == "TSEmptyBodyFunctionExpression"@ {
        assert(crate::walk::fields_of(ty) =~= seq!["params"@, "body"@]);
    }
    if ty == "VariableDeclaration"@ {
        assert(crate::walk::fields_of(ty) =~= seq!["declarations"@]);
    }
    if ty == "VariableDeclarator"@ {
        assert(crate::walk::fields_of(ty) =~= seq!["id"@, "init"@]);
    }
    if ty == "Property"@ {
        assert(crate::walk::fields_of(ty) =~= seq!["key"@, "value"@]);
    }
    if ty == "MethodDefinition"@ {
        assert(crate::walk::fields_of(ty) =~= seq!["key"@, "value"@]);
    }
    if ty == "PropertyDefinition"@ {
        assert(crate::walk::fields_of(ty) =~= seq!["key"@, "value"@]);
    }
    if ty == "AccessorProperty"@ {
        assert(crate::walk::fields_of(ty) =~= seq!["key"@, "value"@]);
    }
    if ty == "TSAbstractMethodDefinition"@ {
        assert(crate::walk::fields_of(ty) =~= seq!["key"@, "value"@]);
    }
    if ty == "TSAbstractPropertyDefinition"@ {
        assert(crate::walk::fields_of(ty) =~= seq!["key"@, "value"@]);
    }
    if ty == "TSAbstractAccessorProperty"@ {
        assert(crate::walk::fields_of(ty) =~= seq!["key"@, "value"@]);
    }
    if ty == "ObjectExpression"@ {
        assert(crate::walk::fields_of(ty) =~= seq!["properties"@]);
    }
    if ty == "ObjectPattern"@ {
        assert(crate::walk::fields_of(ty) =~= seq!["properties"@]);
    }
    if ty == "ArrayExpression"@ {
        assert(crate::walk::fields_of(ty) =~= seq!["elements"@]);
    }
    if ty == "ArrayPattern"@ {
        assert(crate::walk::fields_of(ty) =~= seq!["elements"@]);
    }
    if ty == "TemplateLiteral"@ {
        assert(crate::walk::fields_of(ty) =~= seq!["expressions"@]);
    }
    if ty == "SequenceExpression"@ {
        assert(crate::walk::fields_of(ty) =~= seq!["expressions"@]);
    }
    if ty == "TaggedTemplateExpression"@ {
        assert(crate::walk::fields_of(ty) =~= seq!["tag"@, "quasi"@]);
    }
    if ty == "ForStatement"@ {
        assert(crate::walk::fields_of(ty) =~= seq!["init"@, "test"@, "update"@, "body"@]);
    }
    if ty == "ForInStatement"@ {
        assert(crate::walk::fields_of(ty) =~= seq!["left"@, "right"@, "body"@]);
    }
    if ty == "ForOfStatement"@ {
        assert(crate::walk::fields_of(ty) =~= seq!["left"@, "right"@, "body"@]);
    }
    if ty == "WhileStatement"@ {
        assert(crate::walk::fields_of(ty) =~= seq!["test"@, "body"@]);
    }
    if ty == "DoWhileStatement"@ {
        assert(crate::walk::fields_of(ty) =~= seq!["body"@, "test"@]);
    }
    if ty == "SwitchStatement"@ {
        assert(crate::walk::fields_of(ty) =~= seq!["discriminant"@, "cases"@]);
    }
    if ty == "SwitchCase"@ {
        assert(crate::walk::fields_of(ty) =~= seq!["test"@, "consequent"@]);
    }
    if ty == "TryStatement"@ {
        assert(crate::walk::fields_of(ty) =~= seq!["block"@, "handler"@, "finalizer"@]);
    }
    if ty == "CatchClause"@ {
        assert(crate::walk::fields_of(ty) =~= seq!["param"@, "body"@]);
    }
    if ty == "WithStatement"@ {
        assert(crate::walk::fields_of(ty) =~= seq!["object"@, "body"@]);
    }
    if ty == "ClassDeclaration"@ {
        assert(crate::walk::fields_of(ty) =~= seq!["superClass"@, "body"@]);
    }
    if ty == "ClassExpression"@ {
        assert(crate::walk::fields_of(ty) =~= seq!["superClass"@, "body"@]);
    }
    if ty == "ExportNamedDeclaration"@ {
        assert(crate::walk::fields_of(ty) =~= seq!["declaration"@, "specifiers"@]);
    }
    if ty == "ExportDefaultDeclaration"@ {
        assert(crate::walk::fields_of(ty) =~= seq!["declaration"@]);
    }
    if ty == "ExportSpecifier"@ {
        assert(crate::walk::fields_of(ty) =~= seq!["local"@, "exported"@]);
    }
    if ty == "ImportExpression"@ {
        assert(crate::walk::fields_of(ty) =~= seq!["options"@]);
    }
    if ty == "JSXElement"@ {
        assert(crate::walk::fields_of(ty) =~= seq!["openingElement"@, "children"@]);
    }
    if ty == "JSXFragment"@ {
        assert(crate::walk::fields_of(ty) =~= seq!["children"@]);
    }
    if ty == "JSXOpeningElement"@ {
        assert(crate::walk::fields_of(ty) =~= seq!["attributes"@]);
    }
    if ty == "JSXAttribute"@ {
        assert(crate::walk::fields_of(ty) =~= seq!["value"@]);
    }
    if ty == "TSImportEqualsDeclaration"@ {
        assert(crate::walk::fields_of(ty) =~= seq!["moduleReference"@]);
    }
    if ty == "V8IntrinsicExpression"@ {
        assert(crate::walk::fields_of(ty) =~= seq!["arguments"@]);
    }
}

proof fn lemma_children(
    s: Seq<char>,
    t: Tree,
    fields: Seq<Seq<char>>,
    ctx: Context,
    child: Tree,
    inner: Context,
)
    ensures
        crate::walk::children_in(s, t, fields, ctx).contains((child, inner)) <==> exists|f: int|
            0 <= f < fields.len() && #[trigger] crate::walk::context_of(s, t, fields[f], ctx)
                == Some(inner) && crate::walk::nodes_of(
                crate::estree::member(t, fields[f]),
            ).contains(child),
    decreases fields.len(),
{
    if fields.len() > 0 {
        let front = fields.drop_last();
        let before = crate::walk::children_in(s, t, front, ctx);
        let all = crate::walk::children_in(s, t, fields, ctx);
        let field = fields.last();
        let nodes = crate::walk::nodes_of(crate::estree::member(t, field));
        lemma_children(s, t, front, ctx, child, inner);
        if all.contains((child, inner)) {
            let k = all.index_of((child, inner));
            if k < before.len() {
                assert(before[k] == (child, inner));
                let f = choose|f: int|
                    0 <= f < front.len() && #[trigger] crate::walk::context_of(s, t, front[f], ctx)
                        == Some(inner) && crate::walk::nodes_of(
                        crate::estree::member(t, front[f]),
                    ).contains(child);
                assert(fields[f] == front[f]);
                assert(crate::walk::context_of(s, t, fields[f], ctx) == Some(inner));
            } else {
                assert(nodes[k - before.len()] == child);
                assert(fields[fields.len() - 1] == field);
                assert(crate::walk::context_of(s, t, fields[fields.len() - 1], ctx) == Some(inner));
            }
        }
        if exists|f: int|
            0 <= f < fields.len() && #[trigger] crate::walk::context_of(s, t, fields[f], ctx)
                == Some(inner) && crate::walk::nodes_of(
                crate::estree::member(t, fields[f]),
            ).contains(child) {
            let f = choose|f: int|
                0 <= f < fields.len() && #[trigger] crate::walk::context_of(s, t, fields[f], ctx)
                    == Some(inner) && crate::walk::nodes_of(
                    crate::estree::member(t, fields[f]),
                ).contains(child);
            if f < front.len() {
                assert(front[f] == fields[f]);
                assert(crate::walk::context_of(s, t, front[f], ctx) == Some(inner));
                assert(before.contains((child, inner)));
                let k = before.index_of((child, inner));
                assert(all[k] == (child, inner));
            } else {
                let k = nodes.index_of(child);
                assert(crate::walk::in_context(nodes, inner)[k] == (child, inner));
                assert(all[before.len() + k] == (child, inner));
            }
        }
    }
}

/// A node is visited below another one exactly where it stands in one of the parts
/// that are visited, in the context that the part gives it.
pub proof fn law_every_part_is_visited(
    s: Seq<char>,
    t: Tree,
    ctx: Context,
    child: Tree,
    inner: Context,
)
    ensures
        crate::walk::children_of(s, t, ctx).contains((child, inner)) <==> exists|f: int|
            0 <= f < crate::walk::fields_of(crate::estree::type_of(t)).len()
                && #[trigger] crate::walk::context_of(
                s,
                t,
                crate::walk::fields_of(crate::estree::type_of(t))[f],
                ctx,
            ) == Some(inner) && (match crate::estree::member(
                t,
                crate::walk::fields_of(crate::estree::type_of(t))[f],
            ) {
                Some(Tree::List(items)) => items.contains(child),
                Some(node) => node == child,
                None => false,
            }),
{
    let fields = crate::walk::fields_of(crate::estree::type_of(t));
    lemma_children(s, t, fields, ctx, child, inner);
    assert forall|f: int| 0 <= f < fields.len() implies #[trigger] crate::walk::nodes_of(
        crate::estree::member(t, fields[f]),
    ).contains(child) == (match crate::estree::member(t, fields[f]) {
        Some(Tree::List(items)) => items.contains(child),
        Some(node) => node == child,
        None => false,
    }) by {
        match crate::estree::member(t, fields[f]) {
            Some(Tree::List(items)) => {},
            Some(node) => {
                assert(seq![node][0] == node);
            },
            None => {},
        }
    }
    if crate::walk::children_of(s, t, ctx).contains((child, inner)) {
        let f = choose|f: int|
            0 <= f < fields.len() && #[trigger] crate::walk::context_of(s, t, fields[f], ctx)
                == Some(inner) && crate::walk::nodes_of(
                crate::estree::member(t, fields[f]),
            ).contains(child);
        assert(crate::walk::context_of(s, t, fields[f], ctx) == Some(inner));
    }
    if exists|f: int|
        0 <= f < fields.len() && #[trigger] crate::walk::context_of(s, t, fields[f], ctx) == Some(
            inner,
        ) && (match crate::estree::member(t, fields[f]) {
            Some(Tree::List(items)) => items.contains(child),
            Some(node) => node == child,
            None => false,
        }) {
        let f = choose|f: int|
            0 <= f < fields.len() && #[trigger] crate::walk::context_of(s, t, fields[f], ctx)
                == Some(inner) && (match crate::estree::member(t, fields[f]) {
                Some(Tree::List(items)) => items.contains(child),
                Some(node) => node == child,
                None => false,
            });
        assert(crate::walk::nodes_of(crate::estree::member(t, fields[f])).contains(child));
    }
}

proof fn lemma_types_differ()
    ensures
        "CallExpression"@.len() == 14 && "CallExpression"@[0] == 'C',
        "MemberExpression"@.len() == 16 && "MemberExpression"@[0] == 'M' && "MemberExpression"@[2] == 'm',
        "LogicalExpression"@.len() == 17 && "LogicalExpression"@[0] == 'L',
        "TSAsExpression"@.len() == 14 && "TSAsExpression"@[0] == 'T',
        "ExpressionStatement"@.len() == 19 && "ExpressionStatement"@[0] == 'E',
        "AssignmentExpression"@.len() == 20,
        "ForInStatement"@.len() == 14 && "ForInStatement"@[0] == 'F' && "ForInStatement"@[3] == 'I',
        "ForOfStatement"@.len() == 14 && "ForOfStatement"@[0] == 'F' && "ForOfStatement"@[3] == 'O',
        "AssignmentPattern"@.len() == 17 && "AssignmentPattern"@[0] == 'A',
        "ObjectPattern"@.len() == 13,
        "ArrayPattern"@.len() == 12 && "ArrayPattern"@[0] == 'A',
        "RestElement"@.len() == 11,
        "Property"@.len() == 8,
        "WhileStatement"@.len() == 14 && "WhileStatement"@[0] == 'W',
        "DoWhileStatement"@.len() == 16 && "DoWhileStatement"@[0] == 'D',
        "ForStatement"@.len() == 12 && "ForStatement"@[0] == 'F',
        "FunctionDeclaration"@.len() == 19 && "FunctionDeclaration"@[0] == 'F',
        "FunctionExpression"@.len() == 18,
        "TSDeclareFunction"@.len() == 17 && "TSDeclareFunction"@[0] == 'T',
        "TSEmptyBodyFunctionExpression"@.len() == 29,
        "ArrowFunctionExpression"@.len() == 23 && "ArrowFunctionExpression"@[0] == 'A',
        "MethodDefinition"@.len() == 16 && "MethodDefinition"@[0] == 'M' && "MethodDefinition"@[2] == 't',
        "TSAbstractMethodDefinition"@.len() == 26,
        "TaggedTemplateExpression"@.len() == 24,
        "ExportNamedDeclaration"@.len() == 22,
        "JSXAttribute"@.len() == 12 && "JSXAttribute"@[0] == 'J',
        "TSModuleDeclaration"@.len() == 19 && "TSModuleDeclaration"@[0] == 'T' && "TSModuleDeclaration"@[2] == 'M',
        "ParenthesizedExpression"@.len() == 23 && "ParenthesizedExpression"@[0] == 'P',
        "TSSatisfiesExpression"@.len() == 21,
        "TSTypeAssertion"@.len() == 15,
        "TSNonNullExpression"@.len() == 19 && "TSNonNullExpression"@[0] == 'T' && "TSNonNullExpression"@[2] == 'N',
        "TSInstantiationExpression"@.len() == 25,
{
    reveal_strlit("CallExpression");
    reveal_strlit("MemberExpression");
    reveal_strlit("LogicalExpression");
    reveal_strlit("TSAsExpression");
    reveal_strlit("ExpressionStatement");
    reveal_strlit("AssignmentExpression");
    reveal_strlit("ForInStatement");
    reveal_strlit("ForOfStatement");
    reveal_strlit("AssignmentPattern");
    reveal_strlit("ObjectPattern");
    reveal_strlit("ArrayPattern");
    reveal_strlit("RestElement");
    reveal_strlit("Property");
    reveal_strlit("WhileStatement");
    reveal_strlit("DoWhileStatement");
    reveal_strlit("ForStatement");
    reveal_strlit("FunctionDeclaration");
    reveal_strlit("FunctionExpression");
    reveal_strlit("TSDeclareFunction");
    reveal_strlit("TSEmptyBodyFunctionExpression");
    reveal_strlit("ArrowFunctionExpression");
    reveal_strlit("MethodDefinition");
    reveal_strlit("TSAbstractMethodDefinition");
    reveal_strlit("TaggedTemplateExpression");
    reveal_strlit("ExportNamedDeclaration");
    reveal_strlit("JSXAttribute");
    reveal_strlit("TSModuleDeclaration");
    reveal_strlit("ParenthesizedExpression");
    reveal_strlit("TSSatisfiesExpression");
    reveal_strlit("TSTypeAssertion");
    reveal_strlit("TSNonNullExpression");
    reveal_strlit("TSInstantiationExpression");
    assert("CallExpression"@.len() == 14 && "CallExpression"@[0] == 'C');
    assert("MemberExpression"@.len() == 16 && "MemberExpression"@[0] == 'M' && "MemberExpression"@[2] == 'm');
    assert("LogicalExpression"@.len() == 17 && "LogicalExpression"@[0] == 'L');
    assert("TSAsExpression"@.len() == 14 && "TSAsExpression"@[0] == 'T');
    assert("ExpressionStatement"@.len() == 19 && "ExpressionStatement"@[0] == 'E');
    assert("AssignmentExpression"@.len() == 20);
    assert("ForInStatement"@.len() == 14 && "ForInStatement"@[0] == 'F' && "ForInStatement"@[3] == 'I');
    assert("ForOfStatement"@.len() == 14 && "ForOfStatement"@[0] == 'F' && "ForOfStatement"@[3] == 'O');
    assert("AssignmentPattern"@.len() == 17 && "AssignmentPattern"@[0] == 'A');
    assert("ObjectPattern"@.len() == 13);
    assert("ArrayPattern"@.len() == 12 && "ArrayPattern"@[0] == 'A');
    assert("RestElement"@.len() == 11);
    assert("Property"@.len() == 8);
    assert("WhileStatement"@.len() == 14 && "WhileStatement"@[0] == 'W');
    assert("DoWhileStatement"@.len() == 16 && "DoWhileStatement"@[0] == 'D');
    assert("ForStatement"@.len() == 12 && "ForStatement"@[0] == 'F');
    assert("FunctionDeclaration"@.len() == 19 && "FunctionDeclaration"@[0] == 'F');
    assert("FunctionExpression"@.len() == 18);
    assert("TSDeclareFunction"@.len() == 17 && "TSDeclareFunction"@[0] == 'T');
    assert("TSEmptyBodyFunctionExpression"@.len() == 29);
    assert("ArrowFunctionExpression"@.len() == 23 && "ArrowFunctionExpression"@[0] == 'A');
    assert("MethodDefinition"@.len() == 16 && "MethodDefinition"@[0] == 'M' && "MethodDefinition"@[2] == 't');
    assert("TSAbstractMethodDefinition"@.len() == 26);
    assert("TaggedTemplateExpression"@.len() == 24);
    assert("ExportNamedDeclaration"@.len() == 22);
    assert("JSXAttribute"@.len() == 12 && "JSXAttribute"@[0] == 'J');
    assert("TSModuleDeclaration"@.len() == 19 && "TSModuleDeclaration"@[0] == 'T' && "TSModuleDeclaration"@[2] == 'M');
    assert("ParenthesizedExpression"@.len() == 23 && "ParenthesizedExpression"@[0] == 'P');
    assert("TSSatisfiesExpression"@.len() == 21);
    assert("TSTypeAssertion"@.len() == 15);
    assert("TSNonNullExpression"@.len() == 19 && "TSNonNullExpression"@[0] == 'T' && "TSNonNullExpression"@[2] == 'N');
    assert("TSInstantiationExpression"@.len() == 25);
}

/// Whether a node is looked through: parentheses and assertions of a type, but
/// not one that makes a constant.
pub open spec fn is_transparent(t: Tree) -> bool {
    let ty = crate::estree::type_of(t);
    let annotation = crate::estree::node_in(t, "typeAnnotation"@);
    let name = crate::estree::node_in(annotation, "typeName"@);
    let constant = crate::estree::type_of(annotation) == "TSTypeReference"@
        && crate::estree::type_of(name) == "Identifier"@ && crate::estree::text_in(name, "name"@)
        == "const"@;
    ty == "ParenthesizedExpression"@ || (ty == "TSAsExpression"@ && !constant) || ty
        == "TSSatisfiesExpression"@ || ty == "TSTypeAssertion"@ || ty == "TSNonNullExpression"@ || ty
        == "TSInstantiationExpression"@
}

/// Whether a node is one of the loops with a test.
pub open spec fn is_loop(ty: Seq<char>) -> bool {
    ty == "WhileStatement"@ || ty == "DoWhileStatement"@ || ty == "ForStatement"@
}

/// Whether a node is a function that is not an arrow function.
pub open spec fn is_function(ty: Seq<char>) -> bool {
    ty == "FunctionDeclaration"@ || ty == "FunctionExpression"@ || ty == "TSDeclareFunction"@ || ty
        == "TSEmptyBodyFunctionExpression"@
}

/// What is not visited: the parts of a call of `require` or of `Symbol`, the names
/// of members and of properties that are not computed, a constant assertion, a
/// directive, the names that are exported from elsewhere, an attribute that is
/// plain text, and a module that is named by a text. All other parts are.
pub proof fn law_what_is_not_visited(s: Seq<char>, t: Tree, field: Seq<char>, ctx: Context)
    ensures
        ({
            let ty = crate::estree::type_of(t);
            let callee = crate::estree::node_in(t, "callee"@);
            let name = crate::estree::text_in(callee, "name"@);
            let annotation = crate::estree::node_in(t, "typeAnnotation"@);
            let given = crate::estree::node_in(annotation, "typeName"@);
            let computed = crate::estree::flag_in(t, "computed"@);
            crate::walk::context_of(s, t, field, ctx) is None <==> {
                ||| ty == "CallExpression"@ && crate::estree::type_of(callee) == "Identifier"@ && (
                name == "require"@ || name == "Symbol"@)
                ||| ty == "MemberExpression"@ && !computed && field != "object"@
                ||| ty == "Property"@ && !computed && field != "value"@ && ctx.role != Role::Target
                ||| ty == "TSAsExpression"@ && crate::estree::type_of(annotation)
                    == "TSTypeReference"@ && crate::estree::type_of(given) == "Identifier"@
                    && crate::estree::text_in(given, "name"@) == "const"@
                ||| ty == "ExpressionStatement"@ && crate::estree::member(t, "directive"@) is Some
                ||| ty == "ExportNamedDeclaration"@ && (crate::estree::node_in(
                    t,
                    "source"@,
                ) is Object)
                ||| ty == "JSXAttribute"@ && crate::estree::type_of(
                    crate::estree::node_in(t, "value"@),
                ) != "JSXExpressionContainer"@
                ||| ty == "TSModuleDeclaration"@ && crate::estree::type_of(
                    crate::estree::node_in(t, "id"@),
                ) == "Literal"@
            }
        }),
{
    lemma_types_differ();
}

/// What becomes the test of a loop, and what an operand whose truth value is
/// decided around it: the operands of `&&` and `||`, through parentheses.
pub proof fn law_tests_and_operands(s: Seq<char>, t: Tree, field: Seq<char>, ctx: Context)
    ensures
        ({
            let ty = crate::estree::type_of(t);
            crate::walk::context_of(s, t, field, ctx) matches Some(inner) ==> {
                &&& inner.role == Role::LoopTest <==> is_loop(ty) && field == "test"@
                &&& inner.role == Role::Operand <==> (ty == "LogicalExpression"@
                    && crate::estree::text_in(t, "operator"@) != "??"@) || (is_transparent(t)
                    && ctx.role == Role::Operand)
            }
        }),
{
    lemma_types_differ();
}

/// What is assigned to: the left side of an assignment and of a loop over a
/// collection, and from there on inside patterns.
pub proof fn law_targets_of_assignments(s: Seq<char>, t: Tree, field: Seq<char>, ctx: Context)
    ensures
        ({
            let ty = crate::estree::type_of(t);
            crate::walk::context_of(s, t, field, ctx) matches Some(inner) ==> (inner.role
                == Role::Target <==> {
                ||| (ty == "AssignmentExpression"@ || ty == "ForInStatement"@ || ty
                    == "ForOfStatement"@) && field == "left"@
                ||| ctx.role == Role::Target && ((ty == "AssignmentPattern"@ && field == "left"@)
                    || ty == "ObjectPattern"@ || ty == "ArrayPattern"@ || ty == "RestElement"@ || (ty
                    == "Property"@ && field == "value"@))
            })
        }),
{
    lemma_types_differ();
}

/// What is the body of a function, or of a constructor that calls `super`, and
/// what is the template of a tag.
pub proof fn law_bodies_and_templates(s: Seq<char>, t: Tree, field: Seq<char>, ctx: Context)
    ensures
        ({
            let ty = crate::estree::type_of(t);
            let body = crate::estree::node_in(crate::estree::node_in(t, "value"@), "body"@);
            let constructs = crate::estree::text_in(t, "kind"@) == "constructor"@ && crate::text::has(
                crate::collect::text_at(s, crate::estree::span_of(body)),
                "super("@,
            );
            crate::walk::context_of(s, t, field, ctx) matches Some(inner) ==> {
                &&& inner.role == Role::Constructor <==> (ty == "MethodDefinition"@ || ty
                    == "TSAbstractMethodDefinition"@) && field == "value"@ && constructs
                &&& inner.role == Role::ConstructorBody <==> is_function(ty) && field == "body"@
                    && ctx.role == Role::Constructor
                &&& inner.role == Role::Body <==> field == "body"@ && ((is_function(ty) && ctx.role
                    != Role::Constructor) || (ty == "ArrowFunctionExpression"@
                    && !crate::estree::flag_in(t, "expression"@)))
                &&& inner.role == Role::Tagged <==> ty == "TaggedTemplateExpression"@ && field
                    == "quasi"@
            }
        }),
{
    lemma_types_differ();
}

/// The spine of a chain of members and calls begins at its outermost node and
/// goes down through callees and objects; arguments and computed names start anew.
pub proof fn law_spines(s: Seq<char>, t: Tree, field: Seq<char>, ctx: Context)
    ensures
        ({
            let ty = crate::estree::type_of(t);
            let computed = crate::estree::flag_in(t, "computed"@);
            let named = crate::estree::type_of(crate::estree::node_in(t, "property"@))
                == "Identifier"@;
            let goes_on = (ty == "CallExpression"@ && field == "callee"@) || (ty
                == "MemberExpression"@ && field == "object"@ && (computed || named));
            let anew = (ty == "CallExpression"@ && field != "callee"@) || (ty
                == "MemberExpression"@ && field != "object"@);
            crate::walk::context_of(s, t, field, ctx) matches Some(inner) ==> inner.chain == (
            if goes_on {
                match ctx.chain {
                    Some(root) => Some(root),
                    None => Some(crate::estree::span_of(t)),
                }
            } else if anew {
                None
            } else {
                ctx.chain
            })
        }),
{
    lemma_types_differ();
}

} // verus!
