//! Shape inference from a parsed concrete syntax tree.
//!
//! Walks the tree the parser produced: a lexical or structural error anywhere
//! in the walked subtree surfaces as `InvalidJson` citing the offending
//! substring and its byte range; literals classify directly; arrays follow
//! the shared array policy; objects recurse per member, with a repeated key
//! bound to an incompatible shape a hard error.

use vstd::prelude::*;
use vstd::string::StrSliceExecFns;

use crate::canon::{fields_insert, get_field, insert_field, lemma_fields_insert};
use crate::error::{err_model, result_model, Error};
use crate::infer::resolve_array;
use crate::lexer::Token;
use crate::order::{sorted_keys, value_eq, wf, wf_fields_all};
use crate::parser::{node_model, node_ok, nodes_model, nodes_model_props, nodes_ok, nodes_ok_props, Cst, Node, NodeModel, Rule};
use crate::value::{fields_model, fields_model_props, shapes_model, shapes_model_props, Shape, Value};

verus! {

/// The substring of the source at the character span, as an owned string.
fn snippet(source: &str, cs: usize, ce: usize) -> (r: String)
    requires
        cs <= ce <= source@.len(),
    ensures
        r@ == source@.subrange(cs as int, ce as int),
{
    let s = source.substring_char(cs, ce);
    s.to_owned()
}

/// Whether a node is an error leaf or an error production.
pub open spec fn is_error_node(n: NodeModel) -> bool {
    match n {
        NodeModel::Token { kind, .. } => kind is Error,
        NodeModel::Rule { rule, .. } => rule is Error,
    }
}

/// Whether a rule node has an error among its direct children.
pub open spec fn has_error_child(n: NodeModel) -> bool {
    n matches NodeModel::Rule { children, .. } && exists|i: int|
        0 <= i < children.len() && is_error_node(#[trigger] children[i])
}

/// The character span of a node.
fn node_char_span(n: &Node) -> (r: (usize, usize))
    ensures
        r == match *n {
            Node::Token { char_span, .. } => char_span,
            Node::Rule { char_span, .. } => char_span,
        },
{
    match n {
        Node::Token { char_span, .. } => *char_span,
        Node::Rule { char_span, .. } => *char_span,
    }
}

/// The byte span of a node.
fn node_byte_span(n: &Node) -> (r: (usize, usize))
    ensures
        r == match *n {
            Node::Token { byte_span, .. } => byte_span,
            Node::Rule { byte_span, .. } => byte_span,
        },
{
    match n {
        Node::Token { byte_span, .. } => *byte_span,
        Node::Rule { byte_span, .. } => *byte_span,
    }
}

/// The `InvalidJson` error citing a node's substring and byte span.
fn invalid_json_at(node: &Node, source: &str) -> (r: Error)
    requires
        node_ok(*node, source@.len()),
    ensures
        r is InvalidJson,
        err_model(r) == invalid_json_m(node_model(*node), source@),
{
    let (cs, ce) = node_char_span(node);
    let (bs, be) = node_byte_span(node);
    proof {
        match *node {
            Node::Token { .. } => {},
            Node::Rule { .. } => {},
        }
        assert(node_cspan(node_model(*node)) == (cs, ce));
        assert(node_bspan(node_model(*node)) == (bs, be));
    }
    let value = snippet(source, cs, ce);
    Error::InvalidJson { value, span: (bs, be) }
}

/// Surfaces the first error among a node's direct children as `InvalidJson`,
/// citing the offending substring and byte range.
#[verifier::loop_isolation(false)]
pub fn has_errors(node: &Node, source: &str) -> (r: Result<(), Error>)
    requires
        node_ok(*node, source@.len()),
    ensures
        r is Ok <==> !has_error_child(node_model(*node)),
        r is Ok <==> errors_m(node_model(*node), source@) is Ok,
        r matches Err(e) ==> e is InvalidJson && errors_m(node_model(*node), source@) == Result::<
            (),
            ErrModel,
        >::Err(err_model(e)),
{
    if let Node::Rule { children, .. } = node {
        let ghost cm = nodes_model(children@);
        proof {
            let c = (*node)->Rule_children;
            nodes_ok_props(c@, source@.len());
            nodes_model_props(c@);
            lemma_first_error(cm);
            assert(node_model(*node)->Rule_children == cm);
        }
        let mut i: usize = 0;
        while i < children.len()
            invariant
                i <= children@.len(),
                forall|j: int| 0 <= j < i as int ==> !is_error_node(#[trigger] cm[j]),
            decreases children@.len() - i,
        {
            let is_err = match &children[i] {
                Node::Token { kind, .. } => matches!(kind, Token::Error),
                Node::Rule { rule, .. } => matches!(rule, Rule::Error),
            };
            proof {
                assert(cm[i as int] == node_model(children@[i as int]));
                assert(is_err == is_error_node(cm[i as int]));
            }
            if is_err {
                proof {
                    if first_error(cm) < i as int {
                        assert(is_error_node(cm[first_error(cm)]));
                    }
                    if first_error(cm) > i as int {
                        assert(!is_error_node(cm[i as int]));
                    }
                    assert(first_error(cm) == i as int);
                }
                return Err(invalid_json_at(&children[i], source));
            }
            i += 1;
        }
        proof {
            if has_error_child(node_model(*node)) {
                let j = choose|j: int| 0 <= j < cm.len() && is_error_node(#[trigger] cm[j]);
                assert(false);
            }
            if first_error(cm) < cm.len() {
                assert(is_error_node(cm[first_error(cm)]));
                assert(false);
            }
        }
        Ok(())
    } else {
        Ok(())
    }
}

/// Whether a token node is trivia (whitespace or a newline).
fn is_trivia(n: &Node) -> (r: bool)
    ensures
        r == is_trivia_m(node_model(*n)),
{
    match n {
        Node::Token { kind, .. } => matches!(kind, Token::Whitespace) || matches!(
            kind,
            Token::Newline,
        ),
        Node::Rule { .. } => false,
    }
}

/// The description of a token kind, for diagnostics.
fn token_text(t: Token) -> (r: String)
    ensures
        r@ == token_text_m(t),
{
    let s: &str = match t {
        Token::EOF => "SYSNULL",
        Token::Newline | Token::Whitespace => "",
        Token::False | Token::True => "Boolean",
        Token::Null => "Null",
        Token::LBrace => "{",
        Token::RBrace => "}",
        Token::LBrak => "[",
        Token::RBrak => "]",
        Token::Comma => ",",
        Token::Colon => ":",
        Token::String => "String",
        Token::Number => "Number",
        Token::Error => "Unknown Error",
    };
    s.to_owned()
}

/// Classifies a literal or boolean leaf into its scalar shape.
fn parse_token(node: &Node) -> (r: Result<Value, Error>)
    ensures
        result_model(r) == token_shape(node_model(*node)),
        r matches Ok(v) ==> wf(v@),
{
    match node {
        Node::Rule { rule: Rule::Boolean, .. } => Ok(Value::Bool { optional: false }),
        Node::Rule { .. } => Err(Error::Unknown),
        Node::Token { kind: Token::True, .. } | Node::Token { kind: Token::False, .. } => Ok(
            Value::Bool { optional: false },
        ),
        Node::Token { kind: Token::Null, .. } => Ok(Value::Null),
        Node::Token { kind: Token::String, .. } => Ok(Value::String { optional: false }),
        Node::Token { kind: Token::Number, .. } => Ok(Value::Number { optional: false }),
        Node::Token { kind, .. } => Err(Error::InvalidType(token_text(*kind))),
    }
}

/// Infers the shape of one parsed value node: exactly the walk of that node.
#[verifier::loop_isolation(false)]
#[verifier::rlimit(100)]
pub fn parse_rule(node: &Node, source: &str) -> (r: Result<Value, Error>)
    requires
        node_ok(*node, source@.len()),
    ensures
        result_model(r) == walk_rule(node_model(*node), source@),
        r matches Ok(v) ==> wf(v@),
    decreases *node, 1nat,
{
    let ghost gn = source@.len();
    let ghost src = source@;
    let ghost nm = node_model(*node);
    match node {
        Node::Rule { rule: Rule::Literal, children, .. } => {
            proof {
                nodes_model_props(children@);
                assert(nm->Rule_children == nodes_model(children@));
            }
            match has_errors(node, source) {
                Ok(_) => {},
                Err(e) => {
                    return Err(e);
                },
            }
            if children.len() == 0 {
                return Err(Error::InvalidType("Empty".to_owned()));
            }
            proof {
                assert(nm->Rule_children[0] == node_model(children@[0]));
            }
            parse_token(&children[0])
        },
        Node::Rule { rule: Rule::Boolean, .. } => Ok(Value::Bool { optional: false }),
        Node::Rule { rule: Rule::Array, children, .. } => {
            proof {
                nodes_model_props(children@);
                assert(nm->Rule_children == nodes_model(children@));
            }
            match has_errors(node, source) {
                Ok(_) => {},
                Err(e) => {
                    return Err(e);
                },
            }
            proof {
                let cv = (*node)->Rule_children;
                assert(decreases_to!(*node => cv));
                nodes_ok_props(cv@, gn);
            }
            match parse_array_items(children, source) {
                Ok(elements) => {
                    proof {
                        shapes_model_props(elements@);
                    }
                    Ok(resolve_array(elements))
                },
                Err(e) => Err(e),
            }
        },
        Node::Rule { rule: Rule::Object, children, .. } => {
            proof {
                nodes_model_props(children@);
                assert(nm->Rule_children == nodes_model(children@));
            }
            match has_errors(node, source) {
                Ok(_) => {},
                Err(e) => {
                    return Err(e);
                },
            }
            proof {
                let cv = (*node)->Rule_children;
                assert(decreases_to!(*node => cv));
                nodes_ok_props(cv@, gn);
            }
            match parse_object_members(children, source) {
                Ok(content) => {
                    let r = Value::Object { content, optional: false };
                    proof {
                        assert(r@ =~~= Shape::Object {
                            content: fields_model(r->Object_content@),
                            optional: false,
                        });
                    }
                    Ok(r)
                },
                Err(e) => Err(e),
            }
        },
        _ => Err(invalid_json_at(node, source)),
    }
}

/// Infers the shapes of an array's value children, in order.
#[verifier::loop_isolation(false)]
#[verifier::rlimit(100)]
fn parse_array_items(children: &Vec<Node>, source: &str) -> (r: Result<Vec<Value>, Error>)
    requires
        nodes_ok(children@, source@.len()),
    ensures
        match r {
            Ok(els) => walk_items(nodes_model(children@), source@) == Result::<
                Seq<Shape>,
                ErrModel,
            >::Ok(shapes_model(els@)) && (forall|q: int|
                0 <= q < els@.len() ==> wf((#[trigger] els@[q])@)),
            Err(e) => walk_items(nodes_model(children@), source@) == Result::<
                Seq<Shape>,
                ErrModel,
            >::Err(err_model(e)),
        },
    decreases *children, 0nat,
{
    let ghost gn = source@.len();
    let ghost src = source@;
    let ghost c = nodes_model(children@);
    proof {
        nodes_ok_props(children@, gn);
        nodes_model_props(children@);
        assert(c.skip(0) =~= c);
        lemma_items_prefix(c, src, Seq::empty());
    }
    let mut elements: Vec<Value> = Vec::new();
    proof {
        assert(shapes_model(elements@) =~= Seq::<Shape>::empty());
    }
    let mut i: usize = 0;
    while i < children.len()
        invariant
            i <= children@.len(),
            forall|q: int| 0 <= q < elements@.len() ==> wf((#[trigger] elements@[q])@),
            walk_items(c, src) == (match walk_items(c.skip(i as int), src) {
                Result::Ok(rest) => Result::<Seq<Shape>, ErrModel>::Ok(
                    shapes_model(elements@) + rest,
                ),
                Result::Err(e) => Result::<Seq<Shape>, ErrModel>::Err(e),
            }),
        decreases children@.len() - i,
    {
        let ghost tail = c.skip(i as int);
        proof {
            assert(tail[0] == c[i as int]);
            assert(tail.drop_first() =~= c.skip(i as int + 1));
        }
        let skip = match &children[i] {
            Node::Token { kind, .. } => matches!(
                kind,
                Token::Whitespace | Token::Newline | Token::Comma | Token::LBrak | Token::RBrak,
            ),
            Node::Rule { .. } => false,
        };
        proof {
            assert(c[i as int] == node_model(children@[i as int]));
            assert(skip == array_skip_m(c[i as int]));
        }
        if !skip {
            proof {
                assert(decreases_to!(*children => children@));
                assert(decreases_to!(children@ => children@[i as int]));
            }
            match parse_rule(&children[i], source) {
                Ok(shape) => {
                    let ghost before = shapes_model(elements@);
                    let ghost sh = shape@;
                    proof {
                        shapes_model_props(elements@);
                    }
                    elements.push(shape);
                    proof {
                        shapes_model_props(elements@);
                        assert(shapes_model(elements@) =~= before.push(sh));
                        lemma_items_step(c, src, i as int, before, sh);
                    }
                },
                Err(e) => {
                    proof {
                        assert(walk_items(tail, src) == Result::<Seq<Shape>, ErrModel>::Err(
                            err_model(e),
                        ));
                    }
                    return Err(e);
                },
            }
        }
        i += 1;
    }
    proof {
        assert(c.skip(i as int).len() == 0);
        assert(walk_items(c.skip(i as int), src) == Result::<Seq<Shape>, ErrModel>::Ok(
            Seq::empty(),
        ));
        assert(shapes_model(elements@) + Seq::<Shape>::empty() =~= shapes_model(elements@));
    }
    Ok(elements)
}

/// Folds an object's member children into its content, left to right.
#[verifier::loop_isolation(false)]
#[verifier::rlimit(100)]
fn parse_object_members(children: &Vec<Node>, source: &str) -> (r: Result<
    Vec<(String, Value)>,
    Error,
>)
    requires
        nodes_ok(children@, source@.len()),
    ensures
        match r {
            Ok(content) => walk_members(nodes_model(children@), source@, Seq::empty()) == Result::<
                Seq<(Seq<char>, Shape)>,
                ErrModel,
            >::Ok(fields_model(content@)) && sorted_keys(fields_model(content@))
                && wf_fields_all(fields_model(content@)),
            Err(e) => walk_members(nodes_model(children@), source@, Seq::empty()) == Result::<
                Seq<(Seq<char>, Shape)>,
                ErrModel,
            >::Err(err_model(e)),
        },
    decreases *children, 0nat,
{
    let ghost gn = source@.len();
    let ghost src = source@;
    let ghost c = nodes_model(children@);
    proof {
        nodes_ok_props(children@, gn);
        nodes_model_props(children@);
    }
    let mut content: Vec<(String, Value)> = Vec::new();
    proof {
        assert(fields_model(content@) =~= Seq::<(Seq<char>, Shape)>::empty());
        assert(c.skip(0) =~= c);
    }
    let mut i: usize = 0;
    while i < children.len()
        invariant
            i <= children@.len(),
            sorted_keys(fields_model(content@)),
            wf_fields_all(fields_model(content@)),
            walk_members(c, src, Seq::empty()) == walk_members(
                c.skip(i as int),
                src,
                fields_model(content@),
            ),
        decreases children@.len() - i,
    {
        let ghost tail = c.skip(i as int);
        proof {
            assert(tail[0] == c[i as int]);
            assert(tail.drop_first() =~= c.skip(i as int + 1));
        }
        let is_member = matches!(&children[i], Node::Rule { rule: Rule::Member, .. });
        let ghost cur = fields_model(content@);
        proof {
            assert(c[i as int] == node_model(children@[i as int]));
            assert(is_member == (c[i as int] matches NodeModel::Rule { rule: Rule::Member, .. }));
        }
        if is_member {
            proof {
                assert(decreases_to!(*children => children@));
                assert(decreases_to!(children@ => children@[i as int]));
            }
            match parse_member(&children[i], source, content) {
                Ok(updated) => {
                    content = updated;
                    proof {
                        assert(walk_members(tail, src, cur) == walk_members(
                            tail.drop_first(),
                            src,
                            fields_model(content@),
                        ));
                    }
                },
                Err(e) => {
                    proof {
                        assert(walk_members(tail, src, cur) == Result::<
                            Seq<(Seq<char>, Shape)>,
                            ErrModel,
                        >::Err(err_model(e)));
                    }
                    return Err(e);
                },
            }
        }
        i += 1;
    }
    proof {
        assert(c.skip(i as int).len() == 0);
    }
    Ok(content)
}

/// Decomposition of the array item walk around an empty prefix.
proof fn lemma_items_prefix(s: Seq<NodeModel>, src: Seq<char>, pre: Seq<Shape>)
    requires
        pre.len() == 0,
    ensures
        walk_items(s, src) == (match walk_items(s, src) {
            Result::Ok(rest) => Result::<Seq<Shape>, ErrModel>::Ok(pre + rest),
            Result::Err(e) => Result::<Seq<Shape>, ErrModel>::Err(e),
        }),
{
    match walk_items(s, src) {
        Result::Ok(rest) => {
            assert(pre + rest =~= rest);
        },
        Result::Err(_) => {},
    }
}

/// One step of the array item walk: pulling a parsed shape out of the suffix
/// and appending it to the prefix keeps the decomposition.
proof fn lemma_items_step(c: Seq<NodeModel>, src: Seq<char>, i: int, before: Seq<Shape>, sh: Shape)
    requires
        0 <= i < c.len(),
        !array_skip_m(c[i]),
        walk_rule(c[i], src) == Result::<Shape, ErrModel>::Ok(sh),
        walk_items(c, src) == (match walk_items(c.skip(i), src) {
            Result::Ok(rest) => Result::<Seq<Shape>, ErrModel>::Ok(before + rest),
            Result::Err(e) => Result::<Seq<Shape>, ErrModel>::Err(e),
        }),
    ensures
        walk_items(c, src) == (match walk_items(c.skip(i + 1), src) {
            Result::Ok(rest) => Result::<Seq<Shape>, ErrModel>::Ok(before.push(sh) + rest),
            Result::Err(e) => Result::<Seq<Shape>, ErrModel>::Err(e),
        }),
{
    let tail = c.skip(i);
    assert(tail[0] == c[i]);
    assert(tail.drop_first() =~= c.skip(i + 1));
    match walk_items(c.skip(i + 1), src) {
        Result::Ok(rest) => {
            assert(walk_items(tail, src) == Result::<Seq<Shape>, ErrModel>::Ok(
                rest.insert(0, sh),
            ));
            assert(before + rest.insert(0, sh) =~= before.push(sh) + rest);
        },
        Result::Err(_) => {},
    }
}

/// Infers one object member and folds it into the object's content: exactly
/// the member walk, keyed by the text between the key string's quotes. A
/// repeated key bound to an incompatible shape is a hard error.
#[verifier::loop_isolation(false)]
#[verifier::rlimit(100)]
pub fn parse_member(node: &Node, source: &str, content: Vec<(String, Value)>) -> (r: Result<
    Vec<(String, Value)>,
    Error,
>)
    requires
        node_ok(*node, source@.len()),
        sorted_keys(fields_model(content@)),
        wf_fields_all(fields_model(content@)),
    ensures
        match r {
            Ok(c) => walk_member(node_model(*node), source@, fields_model(content@)) == Result::<
                Seq<(Seq<char>, Shape)>,
                ErrModel,
            >::Ok(fields_model(c@)) && sorted_keys(fields_model(c@)) && wf_fields_all(
                fields_model(c@),
            ),
            Err(e) => walk_member(node_model(*node), source@, fields_model(content@)) == Result::<
                Seq<(Seq<char>, Shape)>,
                ErrModel,
            >::Err(err_model(e)),
        },
    decreases *node,
{
    let ghost gn = source@.len();
    let ghost src = source@;
    let ghost cur = fields_model(content@);
    let children: &Vec<Node> = match node {
        Node::Rule { children, .. } => children,
        Node::Token { .. } => {
            return Err(Error::InvalidObjectKey);
        },
    };
    let ghost c = nodes_model(children@);
    proof {
        let cv = (*node)->Rule_children;
        assert(decreases_to!(*node => cv));
        assert(decreases_to!(cv => cv@));
        nodes_ok_props(children@, gn);
        nodes_model_props(children@);
        assert(node_model(*node)->Rule_children == c);
        assert(c.skip(0) =~= c);
    }
    let mut key_span: Option<(usize, usize)> = None;
    let mut i: usize = 0;
    while i < children.len()
        invariant
            i <= children@.len(),
            key_span matches Some(sp) ==> sp.0 + 2 <= sp.1 <= gn && key_span_of(c) == Some(sp),
            key_span is None ==> key_span_of(c) == key_span_of(c.skip(i as int)),
        decreases children@.len() - i,
    {
        let ghost tail = c.skip(i as int);
        proof {
            assert(c[i as int] == node_model(children@[i as int]));
            assert(tail[0] == c[i as int]);
            assert(tail.drop_first() =~= c.skip(i as int + 1));
        }
        if key_span.is_none() {
            if let Node::Token { kind: Token::String, char_span, .. } = &children[i] {
                key_span = Some(*char_span);
            }
        }
        i += 1;
    }
    let (ks, ke) = match key_span {
        Some(sp) => sp,
        None => {
            proof {
                assert(c.skip(i as int).len() == 0);
                assert(key_span_of(c) is None);
            }
            return Err(Error::InvalidObjectKey);
        },
    };
    let key = snippet(source, ks + 1, ke - 1);
    match has_errors(node, source) {
        Ok(_) => {},
        Err(e) => {
            return Err(e);
        },
    }
    let mut value_at: Option<usize> = None;
    let mut j: usize = 0;
    while j < children.len()
        invariant
            j <= children@.len(),
            value_at matches Some(q) ==> q < children@.len() && first_value(c) == Some(
                c[q as int],
            ),
            value_at is None ==> first_value(c) == first_value(c.skip(j as int)),
        decreases children@.len() - j,
    {
        let ghost tail = c.skip(j as int);
        proof {
            assert(c[j as int] == node_model(children@[j as int]));
            assert(tail[0] == c[j as int]);
            assert(tail.drop_first() =~= c.skip(j as int + 1));
        }
        if value_at.is_none() {
            let is_value = matches!(
                &children[j],
                Node::Rule {
                    rule: Rule::Array | Rule::Boolean | Rule::Literal | Rule::Object,
                    ..
                },
            );
            proof {
                assert(is_value == is_value_node(c[j as int]));
            }
            if is_value {
                value_at = Some(j);
            }
        }
        j += 1;
    }
    let vat = match value_at {
        Some(q) => q,
        None => {
            proof {
                assert(c.skip(j as int).len() == 0);
                assert(first_value(c) is None);
            }
            return Err(Error::InvalidObjectValue);
        },
    };
    proof {
        assert(decreases_to!(*children => children@));
        assert(decreases_to!(children@ => children@[vat as int]));
        assert(c[vat as int] == node_model(children@[vat as int]));
    }
    let value = match parse_rule(&children[vat], source) {
        Ok(v) => v,
        Err(e) => {
            return Err(e);
        },
    };
    proof {
        fields_model_props(content@);
    }
    match get_field(&content, key.as_str()) {
        Some(existing) => {
            if let Value::OneOf { variants, .. } = existing {
                proof {
                    assert(existing@ matches Shape::OneOf { variants: vm, .. } && vm
                        == shapes_model(variants@));
                }
                if crate::canon::contains_value(variants, &value) {
                    Ok(content)
                } else {
                    let cloned = clone_values(variants);
                    proof {
                        shapes_model_props(cloned@);
                        shapes_model_props(variants@);
                        assert(shapes_model(cloned@) =~= shapes_model(variants@));
                    }
                    let expected = Value::OneOf { variants: cloned, optional: false };
                    proof {
                        assert(expected@ =~~= Shape::OneOf {
                            variants: shapes_model(variants@),
                            optional: false,
                        });
                    }
                    Err(Error::InvalidObjectValueType(value, expected))
                }
            } else {
                if value_eq(&value, existing) {
                    Ok(content)
                } else {
                    let expected = existing.clone();
                    Err(Error::InvalidObjectValueType(value, expected))
                }
            }
        },
        None => {
            proof {
                lemma_fields_insert(fields_model(content@), key@, value@);
            }
            let updated = insert_field(content, key, value);
            Ok(updated)
        },
    }
}

/// Deep-copies a list of shape trees.
#[verifier::loop_isolation(false)]
fn clone_values(vs: &Vec<Value>) -> (r: Vec<Value>)
    ensures
        r@.len() == vs@.len(),
        forall|j: int| 0 <= j < r@.len() ==> r@[j]@ == vs@[j]@,
{
    let mut out: Vec<Value> = Vec::new();
    let mut i: usize = 0;
    while i < vs.len()
        invariant
            i <= vs.len(),
            out@.len() == i as int,
            forall|j: int| 0 <= j < i as int ==> out@[j]@ == vs@[j]@,
        decreases vs.len() - i,
    {
        let v = vs[i].clone();
        out.push(v);
        i += 1;
    }
    out
}

/// Infers the shape of a parsed document: exactly the walk of the tree. The
/// root must hold exactly one non-trivia value, and any embedded error is
/// surfaced as `InvalidJson`.
#[verifier::loop_isolation(false)]
#[verifier::rlimit(100)]
pub fn parse_cst(cst: &Cst, source: &str) -> (r: Result<Value, Error>)
    requires
        node_ok(cst.root, source@.len()),
    ensures
        result_model(r) == walk_cst(node_model(cst.root), source@),
        r matches Ok(v) ==> wf(v@),
{
    let ghost gn = source@.len();
    let ghost src = source@;
    let root = &cst.root;
    let children: &Vec<Node> = match root {
        Node::Rule { rule: Rule::File, children, .. } => children,
        _ => {
            return Err(invalid_json_at(root, source));
        },
    };
    let ghost c = nodes_model(children@);
    proof {
        let cv = cst.root->Rule_children;
        nodes_ok_props(children@, gn);
        nodes_model_props(children@);
        assert(node_model(cst.root)->Rule_children == c);
        assert(c.skip(0) =~= c);
    }
    match has_errors(root, source) {
        Ok(_) => {},
        Err(e) => {
            return Err(e);
        },
    }
    let mut non_trivia: usize = 0;
    let mut first_at: Option<usize> = None;
    let mut i: usize = 0;
    while i < children.len()
        invariant
            i <= children@.len(),
            non_trivia <= i,
            count_non_trivia(c) == non_trivia + count_non_trivia(c.skip(i as int)),
            first_at matches Some(q) ==> q < children@.len() && !is_trivia_m(c[q as int])
                && first_non_trivia(c) == q && non_trivia >= 1,
            first_at is None ==> first_non_trivia(c) == i + first_non_trivia(c.skip(i as int))
                && non_trivia == 0,
        decreases children@.len() - i,
    {
        let ghost tail = c.skip(i as int);
        proof {
            assert(c[i as int] == node_model(children@[i as int]));
            assert(tail[0] == c[i as int]);
            assert(tail.drop_first() =~= c.skip(i as int + 1));
        }
        if !is_trivia(&children[i]) {
            non_trivia += 1;
            if first_at.is_none() {
                first_at = Some(i);
            }
        }
        i += 1;
    }
    proof {
        assert(c.skip(i as int).len() == 0);
        assert(count_non_trivia(c) == non_trivia);
    }
    if non_trivia > 1 {
        let mut k: usize = 0;
        proof {
            lemma_first_error(c);
        }
        while k < children.len()
            invariant
                k <= children@.len(),
                first_err_child(c, src) == k + first_err_child(c.skip(k as int), src),
            decreases children@.len() - k,
        {
            let ghost tail = c.skip(k as int);
            proof {
                assert(c[k as int] == node_model(children@[k as int]));
                assert(tail[0] == c[k as int]);
                assert(tail.drop_first() =~= c.skip(k as int + 1));
            }
            if has_errors(&children[k], source).is_err() {
                proof {
                    assert(first_err_child(c, src) == k as int);
                }
                let e = invalid_json_at(&children[k], source);
                return Err(e);
            }
            k += 1;
        }
        proof {
            assert(c.skip(k as int).len() == 0);
            assert(first_err_child(c, src) == c.len());
        }
        return Err(Error::TooManyRootNodes);
    }
    let at = match first_at {
        Some(q) => q,
        None => {
            return Err(invalid_json_at(root, source));
        },
    };
    proof {
        assert(c[at as int] == node_model(children@[at as int]));
    }
    parse_rule(&children[at], source)
}

} // verus!

verus! {

use crate::canon::fields_get as fields_get_s;
use crate::error::ErrModel;
use crate::infer::resolve_array_s;

/// The character span of a node, in the model.
pub open spec fn node_cspan(n: NodeModel) -> (usize, usize) {
    match n {
        NodeModel::Token { char_span, .. } => char_span,
        NodeModel::Rule { char_span, .. } => char_span,
    }
}

/// The byte span of a node, in the model.
pub open spec fn node_bspan(n: NodeModel) -> (usize, usize) {
    match n {
        NodeModel::Token { byte_span, .. } => byte_span,
        NodeModel::Rule { byte_span, .. } => byte_span,
    }
}

/// The `InvalidJson` error a node gives rise to: its substring and byte span.
pub open spec fn invalid_json_m(n: NodeModel, src: Seq<char>) -> ErrModel {
    ErrModel::InvalidJson {
        value: src.subrange(node_cspan(n).0 as int, node_cspan(n).1 as int),
        span: node_bspan(n),
    }
}

/// The index of the first error node in a list, or the length when none.
pub open spec fn first_error(s: Seq<NodeModel>) -> int
    decreases s.len(),
{
    if s.len() == 0 {
        0
    } else if is_error_node(s[0]) {
        0
    } else {
        1 + first_error(s.drop_first())
    }
}

/// `first_error` points at the first error node, or past the end.
pub proof fn lemma_first_error(s: Seq<NodeModel>)
    ensures
        0 <= first_error(s) <= s.len(),
        forall|j: int| 0 <= j < first_error(s) ==> !is_error_node(#[trigger] s[j]),
        first_error(s) < s.len() ==> is_error_node(s[first_error(s)]),
    decreases s.len(),
{
    if s.len() > 0 && !is_error_node(s[0]) {
        lemma_first_error(s.drop_first());
        assert forall|j: int| 1 <= j < first_error(s) implies !is_error_node(#[trigger] s[j]) by {
            assert(s[j] == s.drop_first()[j - 1]);
        }
        if first_error(s) < s.len() {
            assert(s[first_error(s)] == s.drop_first()[first_error(s) - 1]);
        }
    }
}

/// The error surfaced for a node's direct children: the first error node as
/// `InvalidJson`, or nothing.
pub open spec fn errors_m(n: NodeModel, src: Seq<char>) -> Result<(), ErrModel> {
    match n {
        NodeModel::Rule { children, .. } => {
            let fe = first_error(children);
            if fe < children.len() {
                Result::Err(invalid_json_m(children[fe], src))
            } else {
                Result::Ok(())
            }
        },
        NodeModel::Token { .. } => Result::Ok(()),
    }
}

/// Whether a node is trivia (a whitespace or newline token).
pub open spec fn is_trivia_m(n: NodeModel) -> bool {
    match n {
        NodeModel::Token { kind, .. } => kind is Whitespace || kind is Newline,
        NodeModel::Rule { .. } => false,
    }
}

/// The description of a token kind, in the model.
pub open spec fn token_text_m(t: Token) -> Seq<char> {
    match t {
        Token::EOF => "SYSNULL"@,
        Token::Newline => ""@,
        Token::Whitespace => ""@,
        Token::False => "Boolean"@,
        Token::True => "Boolean"@,
        Token::Null => "Null"@,
        Token::LBrace => "{"@,
        Token::RBrace => "}"@,
        Token::LBrak => "["@,
        Token::RBrak => "]"@,
        Token::Comma => ","@,
        Token::Colon => ":"@,
        Token::String => "String"@,
        Token::Number => "Number"@,
        Token::Error => "Unknown Error"@,
    }
}

/// The scalar classification of a literal or boolean leaf.
pub open spec fn token_shape(n: NodeModel) -> Result<Shape, ErrModel> {
    match n {
        NodeModel::Rule { rule: Rule::Boolean, .. } => Result::Ok(Shape::Bool { optional: false }),
        NodeModel::Rule { .. } => Result::Err(ErrModel::Unknown),
        NodeModel::Token { kind: Token::True, .. } => Result::Ok(Shape::Bool { optional: false }),
        NodeModel::Token { kind: Token::False, .. } => Result::Ok(Shape::Bool { optional: false }),
        NodeModel::Token { kind: Token::Null, .. } => Result::Ok(Shape::Null),
        NodeModel::Token { kind: Token::String, .. } => Result::Ok(Shape::Str { optional: false }),
        NodeModel::Token { kind: Token::Number, .. } => Result::Ok(Shape::Number { optional: false }),
        NodeModel::Token { kind, .. } => Result::Err(ErrModel::InvalidType(token_text_m(kind))),
    }
}

/// Whether an array child is skipped punctuation or trivia.
pub open spec fn array_skip_m(n: NodeModel) -> bool {
    match n {
        NodeModel::Token { kind, .. } => kind is Whitespace || kind is Newline || kind is Comma
            || kind is LBrak || kind is RBrak,
        NodeModel::Rule { .. } => false,
    }
}

/// The shape inferred from one parsed value node: the specification of
/// `parse_rule`, errors included.
pub open spec fn walk_rule(n: NodeModel, src: Seq<char>) -> Result<Shape, ErrModel>
    decreases n,
{
    match n {
        NodeModel::Rule { rule: Rule::Literal, children, .. } => {
            if errors_m(n, src) is Err {
                Result::Err(errors_m(n, src)->Err_0)
            } else if children.len() == 0 {
                Result::Err(ErrModel::InvalidType("Empty"@))
            } else {
                token_shape(children[0])
            }
        },
        NodeModel::Rule { rule: Rule::Boolean, .. } => Result::Ok(Shape::Bool { optional: false }),
        NodeModel::Rule { rule: Rule::Array, children, .. } => {
            proof {
                assert(decreases_to!(n => n->Rule_children));
            }
            if errors_m(n, src) is Err {
                Result::Err(errors_m(n, src)->Err_0)
            } else {
                match walk_items(children, src) {
                    Result::Ok(shapes) => Result::Ok(resolve_array_s(shapes)),
                    Result::Err(e) => Result::Err(e),
                }
            }
        },
        NodeModel::Rule { rule: Rule::Object, children, .. } => {
            proof {
                assert(decreases_to!(n => n->Rule_children));
            }
            if errors_m(n, src) is Err {
                Result::Err(errors_m(n, src)->Err_0)
            } else {
                match walk_members(children, src, Seq::empty()) {
                    Result::Ok(content) => Result::Ok(
                        Shape::Object { content, optional: false },
                    ),
                    Result::Err(e) => Result::Err(e),
                }
            }
        },
        _ => Result::Err(invalid_json_m(n, src)),
    }
}

/// The shapes of an array's value children, in order; punctuation and trivia
/// are skipped, and the first failing child's error wins.
pub open spec fn walk_items(s: Seq<NodeModel>, src: Seq<char>) -> Result<Seq<Shape>, ErrModel>
    decreases s,
{
    if s.len() == 0 {
        Result::Ok(Seq::empty())
    } else {
        proof {
            assert(decreases_to!(s => s[0]));
        }
        if array_skip_m(s[0]) {
            walk_items(s.drop_first(), src)
        } else {
            match walk_rule(s[0], src) {
                Result::Ok(sh) => match walk_items(s.drop_first(), src) {
                    Result::Ok(rest) => Result::Ok(rest.insert(0, sh)),
                    Result::Err(e) => Result::Err(e),
                },
                Result::Err(e) => Result::Err(e),
            }
        }
    }
}

/// The object content folded over a node's member children, left to right.
pub open spec fn walk_members(
    s: Seq<NodeModel>,
    src: Seq<char>,
    content: Seq<(Seq<char>, Shape)>,
) -> Result<Seq<(Seq<char>, Shape)>, ErrModel>
    decreases s,
{
    if s.len() == 0 {
        Result::Ok(content)
    } else {
        proof {
            assert(decreases_to!(s => s[0]));
        }
        let is_member = s[0] matches NodeModel::Rule { rule: Rule::Member, .. };
        if is_member {
            match walk_member(s[0], src, content) {
                Result::Ok(c2) => walk_members(s.drop_first(), src, c2),
                Result::Err(e) => Result::Err(e),
            }
        } else {
            walk_members(s.drop_first(), src, content)
        }
    }
}

/// The character span of the first string token in a list: the member's key.
pub open spec fn key_span_of(s: Seq<NodeModel>) -> Option<(usize, usize)>
    decreases s.len(),
{
    if s.len() == 0 {
        Option::None
    } else {
        match s[0] {
            NodeModel::Token { kind: Token::String, char_span, .. } => Option::Some(char_span),
            _ => key_span_of(s.drop_first()),
        }
    }
}

/// Whether a node is a parsed value production.
pub open spec fn is_value_node(n: NodeModel) -> bool {
    match n {
        NodeModel::Rule { rule, .. } => rule is Array || rule is Boolean || rule is Literal
            || rule is Object,
        NodeModel::Token { .. } => false,
    }
}

/// The first value production in a list: the member's value.
pub open spec fn first_value(s: Seq<NodeModel>) -> Option<NodeModel>
    decreases s.len(),
{
    if s.len() == 0 {
        Option::None
    } else if is_value_node(s[0]) {
        Option::Some(s[0])
    } else {
        first_value(s.drop_first())
    }
}

/// A found value is an element of the list.
pub proof fn lemma_first_value(s: Seq<NodeModel>)
    ensures
        first_value(s) matches Option::Some(v) ==> exists|i: int| 0 <= i < s.len() && s[i] == v,
    decreases s.len(),
{
    if s.len() > 0 && !is_value_node(s[0]) {
        lemma_first_value(s.drop_first());
        match first_value(s) {
            Option::Some(v) => {
                let i = choose|i: int| 0 <= i < s.drop_first().len() && s.drop_first()[i] == v;
                assert(s[i + 1] == v);
            },
            Option::None => {},
        }
    }
}

/// One member folded into the object content: the specification of
/// `parse_member`. A member needs a key and a value; the key is the text
/// between the key string's quotes, escape sequences kept as written. A
/// repeated key must already be compatible, else the member is a hard error.
pub open spec fn walk_member(
    n: NodeModel,
    src: Seq<char>,
    content: Seq<(Seq<char>, Shape)>,
) -> Result<Seq<(Seq<char>, Shape)>, ErrModel>
    decreases n,
{
    match n {
        NodeModel::Token { .. } => Result::Err(ErrModel::InvalidObjectKey),
        NodeModel::Rule { children, .. } => {
            proof {
                assert(decreases_to!(n => n->Rule_children));
            }
            match key_span_of(children) {
                Option::None => Result::Err(ErrModel::InvalidObjectKey),
                Option::Some(sp) => {
                    let key = src.subrange(sp.0 + 1, sp.1 - 1);
                    if errors_m(n, src) is Err {
                        Result::Err(errors_m(n, src)->Err_0)
                    } else {
                        match first_value(children) {
                            Option::None => Result::Err(ErrModel::InvalidObjectValue),
                            Option::Some(vn) => {
                                proof {
                                    lemma_first_value(children);
                                    let i = choose|i: int|
                                        0 <= i < children.len() && children[i] == vn;
                                    assert(decreases_to!(children => children[i]));
                                }
                                match walk_rule(vn, src) {
                                    Result::Err(e) => Result::Err(e),
                                    Result::Ok(v) => match fields_get_s(content, key) {
                                        Option::Some(existing) => match existing {
                                            Shape::OneOf { variants, .. } => if variants.contains(
                                                v,
                                            ) {
                                                Result::Ok(content)
                                            } else {
                                                Result::Err(
                                                    ErrModel::InvalidObjectValueType(
                                                        v,
                                                        Shape::OneOf {
                                                            variants,
                                                            optional: false,
                                                        },
                                                    ),
                                                )
                                            },
                                            _ => if v == existing {
                                                Result::Ok(content)
                                            } else {
                                                Result::Err(
                                                    ErrModel::InvalidObjectValueType(v, existing),
                                                )
                                            },
                                        },
                                        Option::None => Result::Ok(
                                            fields_insert(content, key, v),
                                        ),
                                    },
                                }
                            },
                        }
                    }
                },
            }
        },
    }
}

/// How many children are not trivia.
pub open spec fn count_non_trivia(s: Seq<NodeModel>) -> int
    decreases s.len(),
{
    if s.len() == 0 {
        0
    } else {
        (if is_trivia_m(s[0]) {
            0int
        } else {
            1int
        }) + count_non_trivia(s.drop_first())
    }
}

/// The index of the first non-trivia child, or the length when none.
pub open spec fn first_non_trivia(s: Seq<NodeModel>) -> int
    decreases s.len(),
{
    if s.len() == 0 {
        0
    } else if !is_trivia_m(s[0]) {
        0
    } else {
        1 + first_non_trivia(s.drop_first())
    }
}

/// `first_non_trivia` is in bounds when some child is not trivia.
pub proof fn lemma_first_non_trivia(s: Seq<NodeModel>)
    ensures
        0 <= first_non_trivia(s) <= s.len(),
        count_non_trivia(s) > 0 ==> first_non_trivia(s) < s.len() && !is_trivia_m(
            s[first_non_trivia(s)],
        ),
        count_non_trivia(s) >= 0,
    decreases s.len(),
{
    if s.len() > 0 {
        lemma_first_non_trivia(s.drop_first());
        if is_trivia_m(s[0]) && count_non_trivia(s) > 0 {
            assert(s[first_non_trivia(s)] == s.drop_first()[first_non_trivia(s) - 1]);
        }
    }
}

/// The index of the first child with an error among its own children, or the
/// length when none.
pub open spec fn first_err_child(s: Seq<NodeModel>, src: Seq<char>) -> int
    decreases s.len(),
{
    if s.len() == 0 {
        0
    } else if errors_m(s[0], src) is Err {
        0
    } else {
        1 + first_err_child(s.drop_first(), src)
    }
}

/// The shape inferred from a parsed document: the specification of
/// `parse_cst`. The root must be a file holding exactly one non-trivia value;
/// an error anywhere surfaced by the walk is `InvalidJson`; several
/// error-free roots are `TooManyRootNodes`.
pub open spec fn walk_cst(root: NodeModel, src: Seq<char>) -> Result<Shape, ErrModel> {
    match root {
        NodeModel::Rule { rule: Rule::File, children, .. } => {
            if errors_m(root, src) is Err {
                Result::Err(errors_m(root, src)->Err_0)
            } else if count_non_trivia(children) > 1 {
                let k = first_err_child(children, src);
                if k < children.len() {
                    Result::Err(invalid_json_m(children[k], src))
                } else {
                    Result::Err(ErrModel::TooManyRootNodes)
                }
            } else if count_non_trivia(children) == 0 {
                Result::Err(invalid_json_m(root, src))
            } else {
                walk_rule(children[first_non_trivia(children)], src)
            }
        },
        _ => Result::Err(invalid_json_m(root, src)),
    }
}

} // verus!


verus! {

use crate::infer::lemma_resolve_array_wf;
use crate::canon::lemma_fields_insert as lemma_fields_insert_s;
use crate::order::{wf_all, wf_all_props, wf_fields_all_props};

/// A successful walk of a value node yields a well-formed shape.
pub proof fn lemma_walk_rule_wf(n: NodeModel, src: Seq<char>)
    ensures
        walk_rule(n, src) matches Result::Ok(v) ==> wf(v),
    decreases n, 1nat,
{
    match n {
        NodeModel::Rule { rule: Rule::Array, children, .. } => {
            assert(decreases_to!(n => n->Rule_children));
            if !(errors_m(n, src) is Err) {
                lemma_walk_items_wf(children, src);
                match walk_items(children, src) {
                    Result::Ok(shapes) => {
                        lemma_resolve_array_wf(shapes);
                    },
                    Result::Err(_) => {},
                }
            }
        },
        NodeModel::Rule { rule: Rule::Object, children, .. } => {
            assert(decreases_to!(n => n->Rule_children));
            if !(errors_m(n, src) is Err) {
                assert(sorted_keys(Seq::<(Seq<char>, Shape)>::empty()));
                assert(wf_fields_all(Seq::<(Seq<char>, Shape)>::empty()));
                lemma_walk_members_wf(children, src, Seq::empty());
            }
        },
        _ => {},
    }
}

/// A successful item walk yields well-formed element shapes.
pub proof fn lemma_walk_items_wf(s: Seq<NodeModel>, src: Seq<char>)
    ensures
        walk_items(s, src) matches Result::Ok(shapes) ==> wf_all(shapes),
    decreases s, 0nat,
{
    if s.len() == 0 {
        assert(wf_all(Seq::<Shape>::empty()));
    } else {
        assert(decreases_to!(s => s[0]));
        lemma_walk_items_wf(s.drop_first(), src);
        if !array_skip_m(s[0]) {
            lemma_walk_rule_wf(s[0], src);
            match walk_rule(s[0], src) {
                Result::Ok(sh) => {
                    match walk_items(s.drop_first(), src) {
                        Result::Ok(rest) => {
                            wf_all_props(rest);
                            wf_all_props(rest.insert(0, sh));
                            assert forall|i: int| 0 <= i < rest.insert(0, sh).len() implies wf(
                                #[trigger] rest.insert(0, sh)[i],
                            ) by {
                                if i > 0 {
                                    assert(rest.insert(0, sh)[i] == rest[i - 1]);
                                }
                            }
                        },
                        Result::Err(_) => {},
                    }
                },
                Result::Err(_) => {},
            }
        }
    }
}

/// A successful member fold keeps the content key-sorted and well formed.
pub proof fn lemma_walk_members_wf(s: Seq<NodeModel>, src: Seq<char>, content: Seq<(Seq<char>, Shape)>)
    requires
        sorted_keys(content),
        wf_fields_all(content),
    ensures
        walk_members(s, src, content) matches Result::Ok(c) ==> sorted_keys(c) && wf_fields_all(
            c,
        ),
    decreases s, 1nat,
{
    if s.len() > 0 {
        assert(decreases_to!(s => s[0]));
        let is_member = s[0] matches NodeModel::Rule { rule: Rule::Member, .. };
        if is_member {
            lemma_walk_member_wf(s[0], src, content);
            match walk_member(s[0], src, content) {
                Result::Ok(c2) => {
                    lemma_walk_members_wf(s.drop_first(), src, c2);
                },
                Result::Err(_) => {},
            }
        } else {
            lemma_walk_members_wf(s.drop_first(), src, content);
        }
    }
}

/// A successful member walk keeps the content key-sorted and well formed.
pub proof fn lemma_walk_member_wf(n: NodeModel, src: Seq<char>, content: Seq<(Seq<char>, Shape)>)
    requires
        sorted_keys(content),
        wf_fields_all(content),
    ensures
        walk_member(n, src, content) matches Result::Ok(c) ==> sorted_keys(c) && wf_fields_all(c),
    decreases n, 2nat,
{
    match n {
        NodeModel::Token { .. } => {},
        NodeModel::Rule { children, .. } => {
            assert(decreases_to!(n => n->Rule_children));
            match key_span_of(children) {
                Option::None => {},
                Option::Some(sp) => {
                    let key = src.subrange(sp.0 + 1, sp.1 - 1);
                    if !(errors_m(n, src) is Err) {
                        match first_value(children) {
                            Option::None => {},
                            Option::Some(vn) => {
                                lemma_first_value(children);
                                let i = choose|i: int|
                                    0 <= i < children.len() && children[i] == vn;
                                assert(decreases_to!(children => children[i]));
                                lemma_walk_rule_wf(vn, src);
                                match walk_rule(vn, src) {
                                    Result::Err(_) => {},
                                    Result::Ok(v) => {
                                        match fields_get_s(content, key) {
                                            Option::Some(_) => {},
                                            Option::None => {
                                                lemma_fields_insert_s(content, key, v);
                                            },
                                        }
                                    },
                                }
                            },
                        }
                    }
                },
            }
        },
    }
}

/// A successful walk of a document yields a well-formed shape: the
/// inference/subset round trip at the parsed-tree entry follows by
/// reflexivity, since the walk is a function of the tree.
pub proof fn lemma_walk_cst_wf(root: NodeModel, src: Seq<char>)
    ensures
        walk_cst(root, src) matches Result::Ok(v) ==> wf(v),
{
    match root {
        NodeModel::Rule { rule: Rule::File, children, .. } => {
            lemma_first_non_trivia(children);
            if !(errors_m(root, src) is Err) && count_non_trivia(children) == 1 {
                lemma_walk_rule_wf(children[first_non_trivia(children)], src);
            }
        },
        _ => {},
    }
}

} // verus!
