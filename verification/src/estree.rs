//! Syntax trees of JavaScript and TypeScript in the ESTree shape.
//!
//! The parser hands a program over as ESTree JSON with byte offsets; here are
//! its mathematical form, `Tree`, and the ways to read a node.
use vstd::prelude::*;

use crate::text::chars_of;

verus! {

/// A JSON value.
pub enum Tree {
    Null,
    Flag(bool),
    /// The number where it is a natural number of 64 bits.
    Number(Option<u64>),
    Text(Seq<char>),
    List(Seq<Tree>),
    Object(Map<Seq<char>, Tree>),
}

/// A JSON value of the `serde_json` crate.
#[verifier::external_type_specification]
#[verifier::external_body]
pub struct ExValue(serde_json::Value);

/// What a JSON value of `serde_json` holds.
pub uninterp spec fn json_tree(value: serde_json::Value) -> Tree;

/// The member of an object, where it is an object and has it.
pub open spec fn member(t: Tree, name: Seq<char>) -> Option<Tree> {
    match t {
        Tree::Object(m) => if m.dom().contains(name) {
            Some(m[name])
        } else {
            None
        },
        _ => None,
    }
}

/// The trees of a list of JSON values.
pub open spec fn json_trees(values: Seq<serde_json::Value>) -> Seq<Tree> {
    values.map_values(|v: serde_json::Value| json_tree(v))
}

/// `Value::get` with a text: the member of that name of an object.
#[verifier::external_body]
pub(crate) fn json_member<'a>(value: &'a serde_json::Value, name: &str) -> (r: Option<
    &'a serde_json::Value,
>)
    ensures
        match r {
            Some(found) => member(json_tree(*value), name@) == Some(json_tree(*found)),
            None => member(json_tree(*value), name@) is None,
        },
{
    value.get(name)
}

/// `Value::as_array`: the elements of a list, nothing for another value.
#[verifier::external_body]
pub(crate) fn json_list(value: &serde_json::Value) -> (r: Option<&Vec<serde_json::Value>>)
    ensures
        match r {
            Some(items) => json_tree(*value) == Tree::List(
                items@.map_values(|v: serde_json::Value| json_tree(v)),
            ),
            None => !(json_tree(*value) is List),
        },
{
    value.as_array()
}

/// `Value::as_str`: the characters of a text, nothing for another value.
#[verifier::external_body]
pub(crate) fn json_text(value: &serde_json::Value) -> (r: Option<&str>)
    ensures
        match r {
            Some(text) => json_tree(*value) == Tree::Text(text@),
            None => !(json_tree(*value) is Text),
        },
{
    value.as_str()
}

/// `Value::as_bool`: the value of a boolean, nothing for another value.
#[verifier::external_body]
pub(crate) fn json_flag(value: &serde_json::Value) -> (r: Option<bool>)
    ensures
        match r {
            Some(flag) => json_tree(*value) == Tree::Flag(flag),
            None => !(json_tree(*value) is Flag),
        },
{
    value.as_bool()
}

/// `Value::as_u64`: a natural number of 64 bits, nothing for another value.
#[verifier::external_body]
pub(crate) fn json_number(value: &serde_json::Value) -> (r: Option<u64>)
    ensures
        match r {
            Some(n) => json_tree(*value) == Tree::Number(Some(n)),
            None => !(json_tree(*value) matches Tree::Number(Some(n))),
        },
{
    value.as_u64()
}

/// `Value::is_object`.
#[verifier::external_body]
pub(crate) fn json_is_object(value: &serde_json::Value) -> (r: bool)
    ensures
        r == (json_tree(*value) is Object),
{
    value.is_object()
}

/// The keys of `Value::as_object`, each once: its members' names in some order,
/// nothing for another value.
#[verifier::external_body]
pub(crate) fn json_keys(value: &serde_json::Value) -> (r: Option<Vec<String>>)
    ensures
        match r {
            Some(keys) => json_tree(*value) matches Tree::Object(m) && crate::text::texts(
                keys@,
            ).no_duplicates() && crate::text::texts(keys@).to_set() == m.dom(),
            None => !(json_tree(*value) is Object),
        },
{
    value.as_object().map(|members| members.keys().cloned().collect())
}

/// The JSON value that a text begins with.
pub uninterp spec fn json_of(text: Seq<char>) -> Option<Tree>;

/// Reads a text with a `serde_json` deserializer that does not limit the depth,
/// so that the stack alone does; the value depends on the text alone.
#[verifier::external_body]
fn json_read(text: &str) -> (r: Option<serde_json::Value>)
    ensures
        match r {
            Some(value) => json_of(text@) == Some(json_tree(value)),
            None => json_of(text@) is None,
        },
{
    let mut reader = serde_json::Deserializer::from_str(text);
    reader.disable_recursion_limit();
    <serde_json::Value as serde::Deserialize>::deserialize(&mut reader).ok()
}

/// What the parser makes of a file.
pub struct Parsed {
    /// Whether the extension of the path is one of JavaScript or TypeScript.
    pub supported: bool,
    /// Whether the parser gave up.
    pub panicked: bool,
    /// Its complaints.
    pub messages: Vec<String>,
    /// The program as ESTree JSON.
    pub json: String,
    /// Of every comment where it starts, and where its contents start and end.
    pub comments: Vec<(u32, u32, u32)>,
}

/// The mathematical value of `Parsed`.
pub struct ParsedView {
    pub supported: bool,
    pub panicked: bool,
    pub messages: Seq<Seq<char>>,
    pub json: Seq<char>,
    pub comments: Seq<(u32, u32, u32)>,
}

impl Parsed {
    pub open spec fn view(&self) -> ParsedView {
        ParsedView {
            supported: self.supported,
            panicked: self.panicked,
            messages: crate::text::texts(self.messages@),
            json: self.json@,
            comments: self.comments@,
        }
    }

    fn unsupported() -> (r: Parsed)
        ensures
            r@ == unsupported_file(),
    {
        let r = Parsed {
            supported: false,
            panicked: false,
            messages: Vec::new(),
            json: String::new(),
            comments: Vec::new(),
        };
        proof {
            assert(r@.messages =~= unsupported_file().messages);
            assert(r@.json =~= unsupported_file().json);
        }
        r
    }
}

/// What is known of a file whose extension names no language.
pub open spec fn unsupported_file() -> ParsedView {
    ParsedView {
        supported: false,
        panicked: false,
        messages: Seq::empty(),
        json: Seq::empty(),
        comments: Seq::empty(),
    }
}

/// Whether the extension of a path names a language of the parser.
pub uninterp spec fn is_source_path(path: Seq<char>) -> bool;

/// `SourceType::from_path` of `oxc_span` succeeds; it looks at the path alone.
#[verifier::external_body]
fn has_source_type(path: &str) -> (r: bool)
    ensures
        r == is_source_path(path@),
{
    oxc_span::SourceType::from_path(path).is_ok()
}

/// Whether the parser gives up on a text in the language of a path, and what it
/// complains of.
pub uninterp spec fn parser_verdict(
    path: Seq<char>,
    source: Seq<char>,
    regular_expressions: bool,
) -> (bool, Seq<Seq<char>>);

/// The program that the parser reads, as ESTree JSON, with or without what only
/// TypeScript has.
pub uninterp spec fn estree_json(
    path: Seq<char>,
    source: Seq<char>,
    regular_expressions: bool,
    types: bool,
) -> Seq<char>;

/// Of every comment that the parser finds where it starts, and where its contents
/// start and end.
pub uninterp spec fn comment_spans(
    path: Seq<char>,
    source: Seq<char>,
    regular_expressions: bool,
) -> Seq<(u32, u32, u32)>;

/// What the parser makes of a text in the language of a path.
pub open spec fn parser_output(
    path: Seq<char>,
    source: Seq<char>,
    regular_expressions: bool,
    types: bool,
) -> ParsedView {
    ParsedView {
        supported: true,
        panicked: parser_verdict(path, source, regular_expressions).0,
        messages: parser_verdict(path, source, regular_expressions).1,
        json: estree_json(path, source, regular_expressions, types),
        comments: comment_spans(path, source, regular_expressions),
    }
}

/// `Parser::parse` of `oxc_parser` on a file of a known language, with or
/// without a look into regular expressions; of the program that it reads, which
/// lives only as long as the parser's memory, `Program::to_estree_json` with or
/// without what only TypeScript has, and `Comment::content_span` of its comments.
/// All depend on the arguments alone.
#[verifier::external_body]
fn parser_run(path: &str, source: &str, regular_expressions: bool, types: bool) -> (r: Parsed)
    requires
        is_source_path(path@),
    ensures
        r.supported,
        (r.panicked, crate::text::texts(r.messages@)) == parser_verdict(
            path@,
            source@,
            regular_expressions,
        ),
        r.json@ == estree_json(path@, source@, regular_expressions, types),
        r.comments@ == comment_spans(path@, source@, regular_expressions),
{
    let kind = oxc_span::SourceType::from_path(path).unwrap();
    let memory = oxc_allocator::Allocator::default();
    let mut options = oxc_parser::ParseOptions::default();
    options.parse_regular_expression = regular_expressions;
    let out = oxc_parser::Parser::new(&memory, source, kind).with_options(options).parse();
    let comments = out.program.comments.iter().map(|c| {
        (c.span.start, c.content_span().start, c.content_span().end)
    });
    Parsed {
        supported: true,
        panicked: out.panicked,
        messages: out.diagnostics.iter().map(|d| d.to_string()).collect(),
        json: out.program.to_estree_json(types, false),
        comments: comments.collect(),
    }
}

/// What the parser makes of a file.
pub open spec fn parsed_file(
    path: Seq<char>,
    source: Seq<char>,
    regular_expressions: bool,
    types: bool,
) -> ParsedView {
    if is_source_path(path) {
        parser_output(path, source, regular_expressions, types)
    } else {
        unsupported_file()
    }
}

/// Parses a file in the language of its path, with or without a look into
/// regular expressions; its tree is with or without what only TypeScript has,
/// such as types and the decorators of parameters.
pub fn parse_file(path: &str, source: &str, regular_expressions: bool, types: bool) -> (r: Parsed)
    ensures
        r@ == parsed_file(path@, source@, regular_expressions, types),
        r.supported == is_source_path(path@),
{
    if has_source_type(path) {
        parser_run(path, source, regular_expressions, types)
    } else {
        Parsed::unsupported()
    }
}

/// Whether the escape of a lone surrogate stands before the end of a string in
/// JSON, given what is left of it.
pub open spec fn lone_ahead(rest: Seq<char>) -> bool
    decreases rest.len(),
{
    if rest.len() == 0 || rest[0] == '"' {
        false
    } else if rest[0] == '\\' && rest.len() >= 3 && rest[1] == 'u' && rest[2] == 'd' {
        true
    } else if rest[0] == '\\' && rest.len() >= 2 {
        lone_ahead(rest.skip(2))
    } else {
        lone_ahead(rest.skip(1))
    }
}

/// JSON text without escapes of lone surrogates, which no text can hold. In
/// place of a lone surrogate stands the replacement character with the four hex
/// digits of the surrogate; the replacement character itself is followed by its
/// own four digits in a string that has such a mark.
pub open spec fn masked(json: Seq<char>, inside: bool, lone: bool) -> Seq<char>
    decreases json.len(),
{
    if json.len() == 0 {
        json
    } else if !inside {
        seq![json[0]] + masked(
            json.skip(1),
            json[0] == '"',
            json[0] == '"' && lone_ahead(json.skip(1)),
        )
    } else if json[0] == '"' {
        seq![json[0]] + masked(json.skip(1), false, false)
    } else if json[0] == '\\' && json.len() >= 3 && json[1] == 'u' && json[2] == 'd' {
        seq!['\u{fffd}', 'd'] + masked(json.skip(3), true, lone)
    } else if json[0] == '\\' && json.len() >= 2 {
        seq!['\\', json[1]] + masked(json.skip(2), true, lone)
    } else if json[0] == '\u{fffd}' && lone {
        seq![json[0], 'f', 'f', 'f', 'd'] + masked(json.skip(1), true, lone)
    } else {
        seq![json[0]] + masked(json.skip(1), true, lone)
    }
}

fn is_lone_ahead(chars: &Vec<char>, from: usize) -> (r: bool)
    requires
        from <= chars@.len(),
    ensures
        r == lone_ahead(chars@.skip(from as int)),
{
    let total = chars.len();
    let mut i: usize = from;
    while i < total
        invariant
            from <= i <= total == chars@.len(),
            lone_ahead(chars@.skip(i as int)) == lone_ahead(chars@.skip(from as int)),
        decreases total - i,
    {
        let ghost rest = chars@.skip(i as int);
        let c = chars[i];
        if c == '"' {
            return false;
        }
        if c == '\\' && total - i >= 3 && chars[i + 1] == 'u' && chars[i + 2] == 'd' {
            return true;
        }
        if c == '\\' && total - i >= 2 {
            proof {
                assert(rest.skip(2) =~= chars@.skip(i + 2));
            }
            i = i + 2;
        } else {
            proof {
                assert(rest.skip(1) =~= chars@.skip(i + 1));
            }
            i = i + 1;
        }
    }
    false
}

/// JSON text without escapes of lone surrogates.
pub fn mask(json: &str) -> (r: String)
    ensures
        r@ == masked(json@, false, false),
{
    let chars = chars_of(json);
    let total = chars.len();
    let mut out = String::new();
    let mut inside = false;
    let mut lone = false;
    let mut i: usize = 0;
    proof {
        assert(chars@.skip(0) =~= chars@);
        assert(out@ + masked(chars@, false, false) =~= masked(chars@, false, false));
    }
    while i < total
        invariant
            i <= total == chars@.len(),
            out@ + masked(chars@.skip(i as int), inside, lone) == masked(chars@, false, false),
        decreases total - i,
    {
        let ghost rest = chars@.skip(i as int);
        let ghost before = out@;
        let ghost goal = before + masked(rest, inside, lone);
        let c = chars[i];
        if inside && c == '\\' && total - i >= 3 && chars[i + 1] == 'u' && chars[i + 2] == 'd' {
            out.push('\u{fffd}');
            out.push('d');
            proof {
                assert(rest.skip(3) =~= chars@.skip(i + 3));
                assert(out@ + masked(rest.skip(3), inside, lone) =~= goal);
            }
            i = i + 3;
        } else if inside && c == '\\' && total - i >= 2 {
            out.push('\\');
            out.push(chars[i + 1]);
            proof {
                assert(rest.skip(2) =~= chars@.skip(i + 2));
                assert(out@ + masked(rest.skip(2), inside, lone) =~= goal);
            }
            i = i + 2;
        } else {
            out.push(c);
            proof {
                assert(rest.skip(1) =~= chars@.skip(i + 1));
            }
            if !inside {
                inside = c == '"';
                lone = c == '"' && is_lone_ahead(&chars, i + 1);
            } else if c == '"' {
                inside = false;
                lone = false;
            } else if c == '\u{fffd}' && lone {
                out.push('f');
                out.push('f');
                out.push('f');
                out.push('d');
            }
            proof {
                assert(out@ + masked(rest.skip(1), inside, lone) =~= goal);
            }
            i = i + 1;
        }
    }
    proof {
        assert(out@ + masked(chars@.skip(total as int), inside, lone) =~= out@);
    }
    out
}

/// The tree that ESTree JSON stands for.
pub open spec fn program_tree(json: Seq<char>) -> Option<Tree> {
    json_of(masked(json, false, false))
}

/// Reads ESTree JSON.
pub fn read_program(json: &str) -> (r: Option<serde_json::Value>)
    ensures
        match r {
            Some(value) => program_tree(json@) == Some(json_tree(value)),
            None => program_tree(json@) is None,
        },
{
    json_read(mask(json).as_str())
}

// ---- reading nodes ----

/// A range of byte offsets.
#[derive(Debug, Clone, Copy, PartialEq, Eq, Structural)]
pub struct Span {
    pub start: u32,
    pub end: u32,
}

/// The text of a member, empty where it has none.
pub open spec fn text_in(t: Tree, name: Seq<char>) -> Seq<char> {
    match member(t, name) {
        Some(Tree::Text(text)) => text,
        _ => Seq::empty(),
    }
}

/// Whether a member is `true`.
pub open spec fn flag_in(t: Tree, name: Seq<char>) -> bool {
    member(t, name) == Some(Tree::Flag(true))
}

/// The elements of a member that is a list.
pub open spec fn list_in(t: Tree, name: Seq<char>) -> Seq<Tree> {
    match member(t, name) {
        Some(Tree::List(items)) => items,
        _ => Seq::empty(),
    }
}

/// A member, `Null` where it is missing.
pub open spec fn node_in(t: Tree, name: Seq<char>) -> Tree {
    match member(t, name) {
        Some(node) => node,
        None => Tree::Null,
    }
}

/// The offset in a member, zero where it holds none.
pub open spec fn offset_in(t: Tree, name: Seq<char>) -> u32 {
    match member(t, name) {
        Some(Tree::Number(Some(n))) => if n <= u32::MAX {
            n as u32
        } else {
            0
        },
        _ => 0,
    }
}

/// The type of a node.
pub open spec fn type_of(t: Tree) -> Seq<char> {
    text_in(t, "type"@)
}

/// Where a node stands.
pub open spec fn span_of(t: Tree) -> Span {
    Span { start: offset_in(t, "start"@), end: offset_in(t, "end"@) }
}

/// The text of a member, empty where it has none.
pub fn get_text<'a>(node: &'a serde_json::Value, name: &str) -> (r: &'a str)
    ensures
        r@ == text_in(json_tree(*node), name@),
{
    proof {
        reveal_strlit("");
        assert(""@ =~= Seq::<char>::empty());
    }
    match json_member(node, name) {
        Some(found) => match json_text(found) {
            Some(text) => text,
            None => "",
        },
        None => "",
    }
}

/// Whether a member is `true`.
pub fn get_flag(node: &serde_json::Value, name: &str) -> (r: bool)
    ensures
        r == flag_in(json_tree(*node), name@),
{
    match json_member(node, name) {
        Some(found) => match json_flag(found) {
            Some(flag) => flag,
            None => false,
        },
        None => false,
    }
}

/// The elements of a member that is a list.
pub fn get_list<'a>(node: &'a serde_json::Value, name: &str) -> (r: Option<
    &'a Vec<serde_json::Value>,
>)
    ensures
        match r {
            Some(items) => list_in(json_tree(*node), name@) == json_trees(items@),
            None => list_in(json_tree(*node), name@).len() == 0,
        },
{
    match json_member(node, name) {
        Some(found) => json_list(found),
        None => None,
    }
}

/// The offset in a member, zero where it holds none.
pub fn get_offset(node: &serde_json::Value, name: &str) -> (r: u32)
    ensures
        r == offset_in(json_tree(*node), name@),
{
    match json_member(node, name) {
        Some(found) => match json_number(found) {
            Some(n) => if n <= u32::MAX as u64 {
                n as u32
            } else {
                0
            },
            None => 0,
        },
        None => 0,
    }
}

/// The type of a node.
pub fn get_type<'a>(node: &'a serde_json::Value) -> (r: &'a str)
    ensures
        r@ == type_of(json_tree(*node)),
{
    get_text(node, "type")
}

/// Where a node stands.
pub fn get_span(node: &serde_json::Value) -> (r: Span)
    ensures
        r == span_of(json_tree(*node)),
{
    Span { start: get_offset(node, "start"), end: get_offset(node, "end") }
}

/// Where a member stands.
pub fn get_member_span(node: &serde_json::Value, name: &str) -> (r: Span)
    ensures
        r == span_of(node_in(json_tree(*node), name@)),
{
    match json_member(node, name) {
        Some(found) => get_span(found),
        None => Span { start: 0, end: 0 },
    }
}

/// The type of a member.
pub fn get_member_type<'a>(node: &'a serde_json::Value, name: &str) -> (r: &'a str)
    ensures
        r@ == type_of(node_in(json_tree(*node), name@)),
{
    proof {
        reveal_strlit("");
        assert(""@ =~= Seq::<char>::empty());
    }
    match json_member(node, name) {
        Some(found) => get_type(found),
        None => "",
    }
}

proof fn lemma_masked(json: Seq<char>, inside: bool, lone: bool)
    requires
        !json.contains('\u{fffd}'),
        forall|i: int|
            0 <= i < json.len() - 2 ==> !((#[trigger] json[i]) == '\\' && json[i + 1] == 'u'
                && json[i + 2] == 'd'),
    ensures
        masked(json, inside, lone) == json,
    decreases json.len(),
{
    if json.len() > 0 {
        let one = json.skip(1);
        assert(json[0] != '\u{fffd}') by {
            assert(json.contains(json[0]));
        }
        assert(!one.contains('\u{fffd}')) by {
            if one.contains('\u{fffd}') {
                let i = one.index_of('\u{fffd}');
                assert(json[i + 1] == '\u{fffd}');
            }
        }
        assert forall|i: int| 0 <= i < one.len() - 2 implies !((#[trigger] one[i]) == '\\' && one[i
            + 1] == 'u' && one[i + 2] == 'd') by {
            assert(json[i + 1] == one[i]);
        }
        lemma_masked(one, json[0] == '"', json[0] == '"' && lone_ahead(one));
        lemma_masked(one, false, false);
        lemma_masked(one, true, lone);
        assert(seq![json[0]] + one =~= json);
        if json.len() >= 2 {
            let two = json.skip(2);
            assert(!two.contains('\u{fffd}')) by {
                if two.contains('\u{fffd}') {
                    let i = two.index_of('\u{fffd}');
                    assert(json[i + 2] == '\u{fffd}');
                }
            }
            assert forall|i: int| 0 <= i < two.len() - 2 implies !((#[trigger] two[i]) == '\\'
                && two[i + 1] == 'u' && two[i + 2] == 'd') by {
                assert(json[i + 2] == two[i]);
            }
            lemma_masked(two, true, lone);
            assert(seq!['\\', json[1]] + two =~= seq![json[0], json[1]] + two || json[0] != '\\');
            assert(seq![json[0], json[1]] + two =~= json);
        }
        if json.len() >= 3 {
            assert(!(json[0] == '\\' && json[1] == 'u' && json[2] == 'd'));
        }
    }
}

/// A syntax tree without halves of surrogate pairs in its strings is read as it is.
pub proof fn law_plain_trees_are_read_as_they_are(json: Seq<char>)
    requires
        !json.contains('\u{fffd}'),
        forall|i: int|
            0 <= i < json.len() - 2 ==> !((#[trigger] json[i]) == '\\' && json[i + 1] == 'u'
                && json[i + 2] == 'd'),
    ensures
        program_tree(json) == json_of(json),
{
    lemma_masked(json, false, false);
}

/// A path that is none of a source is not parsed, and one that is is parsed as it
/// is asked for.
pub proof fn law_what_is_parsed(
    path: Seq<char>,
    source: Seq<char>,
    regular_expressions: bool,
    types: bool,
)
    ensures
        parsed_file(path, source, regular_expressions, types).supported <==> is_source_path(path),
        !is_source_path(path) ==> parsed_file(
            path,
            source,
            regular_expressions,
            types,
        ).messages.len() == 0,
        is_source_path(path) ==> ({
            let parsed = parsed_file(path, source, regular_expressions, types);
            &&& parsed.json == estree_json(path, source, regular_expressions, types)
            &&& parsed.comments == comment_spans(path, source, regular_expressions)
            &&& parsed.panicked == parser_verdict(path, source, regular_expressions).0
            &&& parsed.messages == parser_verdict(path, source, regular_expressions).1
        }),
{
}

} // verus!
