//! Bit-exact textual rendering of shapes and error messages.
//!
//! Scalars render as `Boolean`, `Number`, `String`, wrapped as
//! `Option<...>` when optional; arrays as `Array<T>`; tuples as
//! `Tuple(T1, T2)`; objects as `Object{k: T}` with keys quoted unless every
//! character is alphanumeric, `_` or `-`; unions as `OneOf[T1 | T2]`.
//! Members render in canonical stored order.

use vstd::prelude::*;
use vstd::string::StrSliceExecFns;
use vstd::string::StringExecFns;

use crate::error::Error;
use crate::value::{fields_model, fields_model_props, shapes_model, shapes_model_props, Shape,
    Value};

verus! {

/// Whether a character counts as alphanumeric for unquoted object keys.
pub uninterp spec fn alnum(c: char) -> bool;

/// Relies on char::is_alphanumeric: whether the character is alphanumeric;
/// the result depends on the character alone.
#[verifier::external_body]
fn char_is_alphanumeric(c: char) -> (r: bool)
    ensures
        r == alnum(c),
{
    c.is_alphanumeric()
}

/// Whether a key renders unquoted: every character alphanumeric, `_` or `-`.
pub open spec fn key_plain(k: Seq<char>) -> bool {
    forall|i: int| 0 <= i < k.len() ==> alnum(#[trigger] k[i]) || k[i] == '_' || k[i] == '-'
}

/// The canonical rendering of a shape.
pub open spec fn render_s(s: Shape) -> Seq<char>
    decreases s, 0nat,
{
    match s {
        Shape::Null => "Null"@,
        Shape::Bool { optional } => if optional {
            "Option<Boolean>"@
        } else {
            "Boolean"@
        },
        Shape::Number { optional } => if optional {
            "Option<Number>"@
        } else {
            "Number"@
        },
        Shape::Str { optional } => if optional {
            "Option<String>"@
        } else {
            "String"@
        },
        Shape::Array { element, optional } => if optional {
            "Option<Array<"@ + render_s(*element) + ">>"@
        } else {
            "Array<"@ + render_s(*element) + ">"@
        },
        Shape::Object { content, optional } => {
            proof {
                assert(decreases_to!(s => s->Object_content));
            }
            if optional {
                "Option<Object{"@ + render_fields(content) + "}>"@
            } else {
                "Object{"@ + render_fields(content) + "}"@
            }
        },
        Shape::OneOf { variants, optional } => {
            proof {
                assert(decreases_to!(s => s->OneOf_variants));
            }
            if optional {
                "Option<OneOf["@ + render_join(variants, " | "@) + "]>"@
            } else {
                "OneOf["@ + render_join(variants, " | "@) + "]"@
            }
        },
        Shape::Tuple { elements, optional } => {
            proof {
                assert(decreases_to!(s => s->Tuple_elements));
            }
            if optional {
                "Option<Tuple("@ + render_join(elements, ", "@) + ")>"@
            } else {
                "Tuple("@ + render_join(elements, ", "@) + ")"@
            }
        },
    }
}

/// Shapes rendered with a separator between them.
pub open spec fn render_join(s: Seq<Shape>, sep: Seq<char>) -> Seq<char>
    decreases s, 1nat,
{
    if s.len() == 0 {
        Seq::empty()
    } else if s.len() == 1 {
        proof {
            assert(decreases_to!(s => s[0]));
        }
        render_s(s[0])
    } else {
        proof {
            assert(decreases_to!(s => s[0]));
        }
        render_s(s[0]) + sep + render_join(s.drop_first(), sep)
    }
}

/// One object member rendered: the key, quoted unless plain, then the shape.
pub open spec fn render_field(k: Seq<char>, v: Shape) -> Seq<char>
    decreases v, 2nat,
{
    (if key_plain(k) {
        k
    } else {
        "\""@ + k + "\""@
    }) + ": "@ + render_s(v)
}

/// Object members rendered, joined by `", "`.
pub open spec fn render_fields(s: Seq<(Seq<char>, Shape)>) -> Seq<char>
    decreases s, 1nat,
{
    if s.len() == 0 {
        Seq::empty()
    } else if s.len() == 1 {
        proof {
            assert(decreases_to!(s => s[0]));
        }
        render_field(s[0].0, s[0].1)
    } else {
        proof {
            assert(decreases_to!(s => s[0]));
        }
        render_field(s[0].0, s[0].1) + ", "@ + render_fields(s.drop_first())
    }
}

/// Whether a key renders unquoted, executable form.
#[verifier::loop_isolation(false)]
fn key_plain_exec(k: &str) -> (r: bool)
    ensures
        r == key_plain(k@),
{
    let n = k.unicode_len();
    let mut i: usize = 0;
    while i < n
        invariant
            i <= n,
            forall|j: int| 0 <= j < i as int ==> alnum(#[trigger] k@[j]) || k@[j] == '_' || k@[j]
                == '-',
        decreases n - i,
    {
        let c = k.get_char(i);
        if !(char_is_alphanumeric(c) || c == '_' || c == '-') {
            return false;
        }
        i += 1;
    }
    true
}

impl Value {
    /// The canonical textual rendering of this shape.
    pub fn render(&self) -> (r: String)
        ensures
            r@ == render_s(self@),
        decreases *self,
    {
        match self {
            Value::Null => "Null".to_owned(),
            Value::Bool { optional } => if *optional {
                "Option<Boolean>".to_owned()
            } else {
                "Boolean".to_owned()
            },
            Value::Number { optional } => if *optional {
                "Option<Number>".to_owned()
            } else {
                "Number".to_owned()
            },
            Value::String { optional } => if *optional {
                "Option<String>".to_owned()
            } else {
                "String".to_owned()
            },
            Value::Array { element, optional } => {
                let inner = element.render();
                let mut out = if *optional {
                    "Option<Array<".to_owned()
                } else {
                    "Array<".to_owned()
                };
                out.append(inner.as_str());
                out.append(
                    if *optional {
                        ">>"
                    } else {
                        ">"
                    },
                );
                out
            },
            Value::Object { content, optional } => {
                proof {
                    let c = (*self)->Object_content;
                    assert(decreases_to!(*self => c));
                    assert(decreases_to!(c => c@));
                }
                let inner = display_object_content(content);
                let mut out = if *optional {
                    "Option<Object{".to_owned()
                } else {
                    "Object{".to_owned()
                };
                out.append(inner.as_str());
                out.append(
                    if *optional {
                        "}>"
                    } else {
                        "}"
                    },
                );
                out
            },
            Value::OneOf { variants, optional } => {
                proof {
                    let c = (*self)->OneOf_variants;
                    assert(decreases_to!(*self => c));
                    assert(decreases_to!(c => c@));
                }
                let inner = render_values(variants, " | ");
                let mut out = if *optional {
                    "Option<OneOf[".to_owned()
                } else {
                    "OneOf[".to_owned()
                };
                out.append(inner.as_str());
                out.append(
                    if *optional {
                        "]>"
                    } else {
                        "]"
                    },
                );
                out
            },
            Value::Tuple { elements, optional } => {
                proof {
                    let c = (*self)->Tuple_elements;
                    assert(decreases_to!(*self => c));
                    assert(decreases_to!(c => c@));
                }
                let inner = render_values(elements, ", ");
                let mut out = if *optional {
                    "Option<Tuple(".to_owned()
                } else {
                    "Tuple(".to_owned()
                };
                out.append(inner.as_str());
                out.append(
                    if *optional {
                        ")>"
                    } else {
                        ")"
                    },
                );
                out
            },
        }
    }
}

/// Renders a list of shapes, joined by the separator.
#[verifier::loop_isolation(false)]
fn render_values(vs: &Vec<Value>, sep: &str) -> (r: String)
    ensures
        r@ == render_join(shapes_model(vs@), sep@),
    decreases *vs,
{
    proof {
        shapes_model_props(vs@);
    }
    let ghost m = shapes_model(vs@);
    let mut out = String::new();
    let mut i: usize = 0;
    while i < vs.len()
        invariant
            i <= vs.len(),
            out@ == render_prefix(m, sep@, i as int),
        decreases vs.len() - i,
    {
        if i > 0 {
            out.append(sep);
        }
        proof {
            assert(decreases_to!(*vs => vs@));
            assert(decreases_to!(vs@ => vs@[i as int]));
        }
        let piece = vs[i].render();
        out.append(piece.as_str());
        proof {
            lemma_render_prefix(m, sep@, i as int + 1);
        }
        i += 1;
    }
    proof {
        lemma_render_prefix_all(m, sep@);
    }
    out
}

/// The rendering of the first `n` shapes, joined by the separator.
pub open spec fn render_prefix(s: Seq<Shape>, sep: Seq<char>, n: int) -> Seq<char>
    decreases n,
{
    if n <= 0 || s.len() == 0 {
        Seq::empty()
    } else if n == 1 {
        render_s(s[0])
    } else {
        render_prefix(s, sep, n - 1) + sep + render_s(s[n - 1])
    }
}

/// Unfolding of the prefix rendering, one step at the end.
proof fn lemma_render_prefix(s: Seq<Shape>, sep: Seq<char>, n: int)
    requires
        1 <= n <= s.len(),
    ensures
        n == 1 ==> render_prefix(s, sep, n) == render_s(s[0]),
        n > 1 ==> render_prefix(s, sep, n) == render_prefix(s, sep, n - 1) + sep + render_s(
            s[n - 1],
        ),
{
}

/// The full prefix rendering equals the joined rendering.
proof fn lemma_render_prefix_all(s: Seq<Shape>, sep: Seq<char>)
    ensures
        render_prefix(s, sep, s.len() as int) == render_join(s, sep),
    decreases s.len(),
{
    if s.len() > 1 {
        lemma_render_prefix_all(s.drop_first(), sep);
        lemma_render_prefix_shift(s, sep, s.len() as int);
    } else if s.len() == 1 {
        assert(render_prefix(s, sep, 1) == render_s(s[0]));
    }
}

/// Prefixes over a sequence and over its tail line up.
proof fn lemma_render_prefix_shift(s: Seq<Shape>, sep: Seq<char>, n: int)
    requires
        s.len() >= 2,
        2 <= n <= s.len(),
    ensures
        render_prefix(s, sep, n) == render_s(s[0]) + sep + render_prefix(
            s.drop_first(),
            sep,
            n - 1,
        ),
    decreases n,
{
    if n == 2 {
        assert(s.drop_first()[0] == s[1]);
        assert(render_prefix(s, sep, 1) == render_s(s[0]));
        assert(render_prefix(s.drop_first(), sep, 1) == render_s(s[1]));
        assert(render_prefix(s, sep, 2) =~= render_s(s[0]) + sep + render_prefix(
            s.drop_first(),
            sep,
            1,
        ));
    } else {
        lemma_render_prefix_shift(s, sep, n - 1);
        assert(s.drop_first()[n - 2] == s[n - 1]);
        assert((render_s(s[0]) + sep + render_prefix(s.drop_first(), sep, n - 2)) + sep + render_s(
            s[n - 1],
        ) =~= render_s(s[0]) + sep + (render_prefix(s.drop_first(), sep, n - 2) + sep + render_s(
            s[n - 1],
        )));
    }
}

/// Renders an object's members in stored order, keys quoted unless every
/// character is alphanumeric, `_` or `-`.
#[verifier::loop_isolation(false)]
pub fn display_object_content(content: &Vec<(String, Value)>) -> (r: String)
    ensures
        r@ == render_fields(fields_model(content@)),
    decreases *content,
{
    proof {
        fields_model_props(content@);
    }
    let ghost m = fields_model(content@);
    let mut out = String::new();
    let mut i: usize = 0;
    while i < content.len()
        invariant
            i <= content.len(),
            out@ == render_fields_prefix(m, i as int),
        decreases content.len() - i,
    {
        if i > 0 {
            out.append(", ");
        }
        if key_plain_exec(content[i].0.as_str()) {
            out.append(content[i].0.as_str());
        } else {
            out.append("\"");
            out.append(content[i].0.as_str());
            out.append("\"");
        }
        out.append(": ");
        proof {
            assert(decreases_to!(*content => content@));
            assert(decreases_to!(content@ => content@[i as int]));
            assert(decreases_to!(content@[i as int] => content@[i as int].1));
        }
        let piece = content[i].1.render();
        out.append(piece.as_str());
        proof {
            lemma_render_fields_prefix(m, i as int + 1);
            assert(out@ =~= render_fields_prefix(m, i as int + 1));
        }
        i += 1;
    }
    proof {
        lemma_render_fields_prefix_all(m);
    }
    out
}

/// The rendering of the first `n` members.
pub open spec fn render_fields_prefix(s: Seq<(Seq<char>, Shape)>, n: int) -> Seq<char>
    decreases n,
{
    if n <= 0 || s.len() == 0 {
        Seq::empty()
    } else if n == 1 {
        render_field(s[0].0, s[0].1)
    } else {
        render_fields_prefix(s, n - 1) + ", "@ + render_field(s[n - 1].0, s[n - 1].1)
    }
}

/// Unfolding of the member prefix rendering, one step at the end.
proof fn lemma_render_fields_prefix(s: Seq<(Seq<char>, Shape)>, n: int)
    requires
        1 <= n <= s.len(),
    ensures
        n == 1 ==> render_fields_prefix(s, n) == render_field(s[0].0, s[0].1),
        n > 1 ==> render_fields_prefix(s, n) == render_fields_prefix(s, n - 1) + ", "@
            + render_field(s[n - 1].0, s[n - 1].1),
{
}

/// The full member prefix rendering equals the joined rendering.
proof fn lemma_render_fields_prefix_all(s: Seq<(Seq<char>, Shape)>)
    ensures
        render_fields_prefix(s, s.len() as int) == render_fields(s),
    decreases s.len(),
{
    if s.len() > 1 {
        lemma_render_fields_prefix_all(s.drop_first());
        lemma_render_fields_prefix_shift(s, s.len() as int);
    } else if s.len() == 1 {
        assert(render_fields_prefix(s, 1) == render_field(s[0].0, s[0].1));
    }
}

/// Member prefixes over a sequence and over its tail line up.
proof fn lemma_render_fields_prefix_shift(s: Seq<(Seq<char>, Shape)>, n: int)
    requires
        s.len() >= 2,
        2 <= n <= s.len(),
    ensures
        render_fields_prefix(s, n) == render_field(s[0].0, s[0].1) + ", "@
            + render_fields_prefix(s.drop_first(), n - 1),
    decreases n,
{
    if n == 2 {
        assert(s.drop_first()[0] == s[1]);
        assert(render_fields_prefix(s, 1) == render_field(s[0].0, s[0].1));
        assert(render_fields_prefix(s.drop_first(), 1) == render_field(s[1].0, s[1].1));
        assert(render_fields_prefix(s, 2) =~= render_field(s[0].0, s[0].1) + ", "@
            + render_fields_prefix(s.drop_first(), 1));
    } else {
        lemma_render_fields_prefix_shift(s, n - 1);
        assert(s.drop_first()[n - 2] == s[n - 1]);
        assert((render_field(s[0].0, s[0].1) + ", "@ + render_fields_prefix(
            s.drop_first(),
            n - 2,
        )) + ", "@ + render_field(s[n - 1].0, s[n - 1].1) =~= render_field(s[0].0, s[0].1) + ", "@
            + (render_fields_prefix(s.drop_first(), n - 2) + ", "@ + render_field(
            s[n - 1].0,
            s[n - 1].1,
        )));
    }
}

} // verus!

verus! {

/// The decimal digit character for a value below ten.
pub open spec fn digit_char(d: nat) -> char {
    if d == 0 {
        '0'
    } else if d == 1 {
        '1'
    } else if d == 2 {
        '2'
    } else if d == 3 {
        '3'
    } else if d == 4 {
        '4'
    } else if d == 5 {
        '5'
    } else if d == 6 {
        '6'
    } else if d == 7 {
        '7'
    } else if d == 8 {
        '8'
    } else {
        '9'
    }
}

/// The decimal rendering of a number.
pub open spec fn dec_str(n: nat) -> Seq<char>
    decreases n,
{
    if n < 10 {
        seq![digit_char(n)]
    } else {
        dec_str(n / 10).push(digit_char(n % 10))
    }
}

/// The decimal digit as a one-character string.
fn digit_str(d: usize) -> (r: String)
    requires
        d < 10,
    ensures
        r@ =~= seq![digit_char(d as nat)],
{
    proof {
        reveal_strlit("0");
        reveal_strlit("1");
        reveal_strlit("2");
        reveal_strlit("3");
        reveal_strlit("4");
        reveal_strlit("5");
        reveal_strlit("6");
        reveal_strlit("7");
        reveal_strlit("8");
        reveal_strlit("9");
    }
    let s: &str = if d == 0 {
        "0"
    } else if d == 1 {
        "1"
    } else if d == 2 {
        "2"
    } else if d == 3 {
        "3"
    } else if d == 4 {
        "4"
    } else if d == 5 {
        "5"
    } else if d == 6 {
        "6"
    } else if d == 7 {
        "7"
    } else if d == 8 {
        "8"
    } else {
        "9"
    };
    s.to_owned()
}

/// Renders a number in decimal.
pub fn fmt_usize(n: usize) -> (r: String)
    ensures
        r@ == dec_str(n as nat),
    decreases n,
{
    if n < 10 {
        digit_str(n)
    } else {
        let mut s = fmt_usize(n / 10);
        let d = digit_str(n % 10);
        s.append(d.as_str());
        proof {
            assert(s@ =~= dec_str(n as nat));
        }
        s
    }
}

/// The message text of an error.
pub open spec fn message_s(e: Error) -> Seq<char> {
    match e {
        Error::Unknown => "unknown error has occurred"@,
        Error::EmptyFile => "JSON content is empty"@,
        Error::InvalidJson { value, span } => "invalid JSON `"@ + value@ + "`: "@ + dec_str(
            span.0 as nat,
        ) + ".."@ + dec_str(span.1 as nat),
        Error::TooManyRootNodes => "invalid JSON: Too many root nodes, expected 1."@,
        Error::InvalidType(name) => "invalid type `"@ + name@
            + "`. Expected number, string, boolean, null, array or object."@,
        Error::InvalidObjectKey => "JSON::object requires key value pairs. Key missing"@,
        Error::InvalidObjectValue =>
        "JSON::object requires value to be one of `Boolean`, `String`, `Number`, `Null`, `Array`, `Object`, `OneOf`"@,
        Error::InvalidObjectValueType(found, expected) => "invalid type `"@ + render_s(found@)
            + "`. Expected `"@ + render_s(expected@) + "`."@,
        Error::CannotMerge(a, b) => "not able to merge `"@ + render_s(a@) + "` with `"@ + render_s(
            b@,
        ) + "`."@,
    }
}

impl Error {
    /// The human-readable message of this error.
    pub fn message(&self) -> (r: String)
        ensures
            r@ == message_s(*self),
    {
        match self {
            Error::Unknown => "unknown error has occurred".to_owned(),
            Error::EmptyFile => "JSON content is empty".to_owned(),
            Error::InvalidJson { value, span } => {
                let mut out = "invalid JSON `".to_owned();
                out.append(value.as_str());
                out.append("`: ");
                let a = fmt_usize(span.0);
                out.append(a.as_str());
                out.append("..");
                let bnum = fmt_usize(span.1);
                out.append(bnum.as_str());
                proof {
                    assert(out@ =~= message_s(*self));
                }
                out
            },
            Error::TooManyRootNodes => "invalid JSON: Too many root nodes, expected 1.".to_owned(),
            Error::InvalidType(name) => {
                let mut out = "invalid type `".to_owned();
                out.append(name.as_str());
                out.append("`. Expected number, string, boolean, null, array or object.");
                proof {
                    assert(out@ =~= message_s(*self));
                }
                out
            },
            Error::InvalidObjectKey => "JSON::object requires key value pairs. Key missing"
                .to_owned(),
            Error::InvalidObjectValue =>
            "JSON::object requires value to be one of `Boolean`, `String`, `Number`, `Null`, `Array`, `Object`, `OneOf`"
                .to_owned(),
            Error::InvalidObjectValueType(found, expected) => {
                let mut out = "invalid type `".to_owned();
                let f = found.render();
                out.append(f.as_str());
                out.append("`. Expected `");
                let ex = expected.render();
                out.append(ex.as_str());
                out.append("`.");
                proof {
                    assert(out@ =~= message_s(*self));
                }
                out
            },
            Error::CannotMerge(a, bv) => {
                let mut out = "not able to merge `".to_owned();
                let f = a.render();
                out.append(f.as_str());
                out.append("` with `");
                let ex = bv.render();
                out.append(ex.as_str());
                out.append("`.");
                proof {
                    assert(out@ =~= message_s(*self));
                }
                out
            },
        }
    }
}

} // verus!

verus! {

/// An indent, one level deeper; the depth saturates instead of overflowing.
pub open spec fn bump(n: usize) -> usize {
    if n <= usize::MAX - 2 {
        (n + 2) as usize
    } else {
        n
    }
}

/// A run of spaces of the given width.
pub open spec fn spaces_s(n: usize) -> Seq<char> {
    Seq::new(n as nat, |i: int| ' ')
}

/// The opening of a tagged variant: brace, tag line, inner brace.
pub open spec fn open_tag_s(tag: Seq<char>, deeper: usize) -> Seq<char> {
    "{\n"@ + spaces_s(deeper) + "\""@ + tag + "\": {\n"@
}

/// The closing braces of a tagged variant.
pub open spec fn close_tag_s(indent: usize, deeper: usize) -> Seq<char> {
    spaces_s(deeper) + "}\n"@ + spaces_s(indent) + "}"@
}

/// One indented `"key": ` prefix.
pub open spec fn field_key_s(indent: usize, key: Seq<char>) -> Seq<char> {
    spaces_s(indent) + "\""@ + key + "\": "@
}

/// The indented `"optional": <flag>` line.
pub open spec fn optional_line_s(indent: usize, optional: bool) -> Seq<char> {
    spaces_s(indent) + "\"optional\": "@ + (if optional {
        "true"@
    } else {
        "false"@
    }) + "\n"@
}

/// A scalar's tagged form: the tag with its single `optional` field.
pub open spec fn scalar_tag_s(tag: Seq<char>, optional: bool, indent: usize) -> Seq<char> {
    open_tag_s(tag, bump(indent)) + optional_line_s(bump(bump(indent)), optional) + close_tag_s(
        indent,
        bump(indent),
    )
}

/// The self-describing tagged form of a shape at an indent: the variant tag
/// mapping to its fields, two-space indented, members in stored order.
pub open spec fn tagged_s(s: Shape, indent: usize) -> Seq<char>
    decreases s, 1nat,
{
    match s {
        Shape::Null => "\"Null\""@,
        Shape::Bool { optional } => scalar_tag_s("Bool"@, optional, indent),
        Shape::Number { optional } => scalar_tag_s("Number"@, optional, indent),
        Shape::Str { optional } => scalar_tag_s("String"@, optional, indent),
        Shape::Array { element, optional } => open_tag_s("Array"@, bump(indent)) + field_key_s(
            bump(bump(indent)),
            "type"@,
        ) + tagged_s(*element, bump(bump(indent))) + ",\n"@ + optional_line_s(
            bump(bump(indent)),
            optional,
        ) + close_tag_s(indent, bump(indent)),
        Shape::Object { content, optional } => {
            proof {
                assert(decreases_to!(s => s->Object_content));
            }
            open_tag_s("Object"@, bump(indent)) + field_key_s(bump(bump(indent)), "content"@)
                + tagged_map_s(content, bump(bump(indent))) + ",\n"@ + optional_line_s(
                bump(bump(indent)),
                optional,
            ) + close_tag_s(indent, bump(indent))
        },
        Shape::OneOf { variants, optional } => {
            proof {
                assert(decreases_to!(s => s->OneOf_variants));
            }
            open_tag_s("OneOf"@, bump(indent)) + field_key_s(bump(bump(indent)), "variants"@)
                + tagged_list_s(variants, bump(bump(indent))) + ",\n"@ + optional_line_s(
                bump(bump(indent)),
                optional,
            ) + close_tag_s(indent, bump(indent))
        },
        Shape::Tuple { elements, optional } => {
            proof {
                assert(decreases_to!(s => s->Tuple_elements));
            }
            open_tag_s("Tuple"@, bump(indent)) + field_key_s(bump(bump(indent)), "elements"@)
                + tagged_list_s(elements, bump(bump(indent))) + ",\n"@ + optional_line_s(
                bump(bump(indent)),
                optional,
            ) + close_tag_s(indent, bump(indent))
        },
    }
}

/// The tagged form of an object's members as a JSON map body.
pub open spec fn tagged_map_s(content: Seq<(Seq<char>, Shape)>, indent: usize) -> Seq<char>
    decreases content, 3nat,
{
    if content.len() == 0 {
        "{}"@
    } else {
        "{\n"@ + tagged_entries_s(content, bump(indent)) + spaces_s(indent) + "}"@
    }
}

/// The tagged entries of an object's members, one per line.
pub open spec fn tagged_entries_s(content: Seq<(Seq<char>, Shape)>, indent: usize) -> Seq<char>
    decreases content, 2nat,
{
    if content.len() == 0 {
        Seq::empty()
    } else {
        proof {
            assert(decreases_to!(content => content[0]));
        }
        spaces_s(indent) + "\""@ + content[0].0 + "\": "@ + tagged_s(content[0].1, indent) + (
        if content.len() > 1 {
            ","@
        } else {
            Seq::empty()
        }) + "\n"@ + tagged_entries_s(content.drop_first(), indent)
    }
}

/// The tagged form of a list of shapes as a JSON array body.
pub open spec fn tagged_list_s(s: Seq<Shape>, indent: usize) -> Seq<char>
    decreases s, 3nat,
{
    if s.len() == 0 {
        "[]"@
    } else {
        "[\n"@ + tagged_items_s(s, bump(indent)) + spaces_s(indent) + "]"@
    }
}

/// The tagged items of a list of shapes, one per line.
pub open spec fn tagged_items_s(s: Seq<Shape>, indent: usize) -> Seq<char>
    decreases s, 2nat,
{
    if s.len() == 0 {
        Seq::empty()
    } else {
        proof {
            assert(decreases_to!(s => s[0]));
        }
        spaces_s(indent) + tagged_s(s[0], indent) + (if s.len() > 1 {
            ","@
        } else {
            Seq::empty()
        }) + "\n"@ + tagged_items_s(s.drop_first(), indent)
    }
}

/// A run of spaces, for indentation.
#[verifier::loop_isolation(false)]
fn spaces(n: usize) -> (r: String)
    ensures
        r@ == spaces_s(n),
{
    proof {
        reveal_strlit(" ");
    }
    let mut out = String::new();
    let mut i: usize = 0;
    while i < n
        invariant
            i <= n,
            out@ =~= Seq::new(i as nat, |q: int| ' '),
        decreases n - i,
    {
        out.append(" ");
        proof {
            assert(out@ =~= Seq::new(i as nat + 1, |q: int| ' '));
        }
        i += 1;
    }
    proof {
        assert(out@ =~= spaces_s(n));
    }
    out
}

impl Value {
    /// The self-describing tagged form of this shape, pretty-printed: the
    /// variant tag mapping to its fields, two-space indented, members in
    /// stored order. Keys are emitted verbatim between quotes.
    pub fn to_tagged_pretty(&self) -> (r: String)
        ensures
            r@ == tagged_s(self@, 0),
    {
        tagged(self, 0)
    }
}

/// One level of the tagged rendering, at the given indent.
#[verifier::loop_isolation(false)]
#[verifier::rlimit(100)]
fn tagged(v: &Value, indent: usize) -> (r: String)
    ensures
        r@ == tagged_s(v@, indent),
    decreases *v,
{
    let deeper: usize = if indent <= usize::MAX - 2 {
        indent + 2
    } else {
        indent
    };
    let deepest: usize = if deeper <= usize::MAX - 2 {
        deeper + 2
    } else {
        deeper
    };
    proof {
        assert(deeper == bump(indent));
        assert(deepest == bump(bump(indent)));
    }
    match v {
        Value::Null => "\"Null\"".to_owned(),
        Value::Bool { optional } => tagged_scalar("Bool", *optional, indent, deeper),
        Value::Number { optional } => tagged_scalar("Number", *optional, indent, deeper),
        Value::String { optional } => tagged_scalar("String", *optional, indent, deeper),
        Value::Array { element, optional } => {
            let mut out = open_tag("Array", deeper);
            out.append(field_key(deepest, "type").as_str());
            let inner = tagged(element, deepest);
            out.append(inner.as_str());
            out.append(",\n");
            out.append(optional_line(deepest, *optional).as_str());
            out.append(close_tag(indent, deeper).as_str());
            out
        },
        Value::Object { content, optional } => {
            proof {
                let c = (*v)->Object_content;
                assert(decreases_to!(*v => c));
                assert(decreases_to!(c => c@));
            }
            let mut out = open_tag("Object", deeper);
            out.append(field_key(deepest, "content").as_str());
            out.append(tagged_map(content, deepest).as_str());
            out.append(",\n");
            out.append(optional_line(deepest, *optional).as_str());
            out.append(close_tag(indent, deeper).as_str());
            proof {
                assert(out@ =~= tagged_s(v@, indent));
            }
            out
        },
        Value::OneOf { variants, optional } => {
            proof {
                let c = (*v)->OneOf_variants;
                assert(decreases_to!(*v => c));
                assert(decreases_to!(c => c@));
            }
            let mut out = open_tag("OneOf", deeper);
            out.append(field_key(deepest, "variants").as_str());
            out.append(tagged_list(variants, deepest).as_str());
            out.append(",\n");
            out.append(optional_line(deepest, *optional).as_str());
            out.append(close_tag(indent, deeper).as_str());
            proof {
                assert(out@ =~= tagged_s(v@, indent));
            }
            out
        },
        Value::Tuple { elements, optional } => {
            proof {
                let c = (*v)->Tuple_elements;
                assert(decreases_to!(*v => c));
                assert(decreases_to!(c => c@));
            }
            let mut out = open_tag("Tuple", deeper);
            out.append(field_key(deepest, "elements").as_str());
            out.append(tagged_list(elements, deepest).as_str());
            out.append(",\n");
            out.append(optional_line(deepest, *optional).as_str());
            out.append(close_tag(indent, deeper).as_str());
            proof {
                assert(out@ =~= tagged_s(v@, indent));
            }
            out
        },
    }
}

/// The tagged rendering of an object's members as a JSON map.
#[verifier::loop_isolation(false)]
#[verifier::rlimit(100)]
fn tagged_map(content: &Vec<(String, Value)>, indent: usize) -> (r: String)
    ensures
        r@ == tagged_map_s(fields_model(content@), indent),
    decreases *content,
{
    let ghost m = fields_model(content@);
    proof {
        fields_model_props(content@);
    }
    if content.len() == 0 {
        return "{}".to_owned();
    }
    let deeper: usize = if indent <= usize::MAX - 2 {
        indent + 2
    } else {
        indent
    };
    proof {
        assert(deeper == bump(indent));
        assert(m.skip(0) =~= m);
    }
    let mut out = "{\n".to_owned();
    let ghost base = out@;
    let mut i: usize = 0;
    while i < content.len()
        invariant
            i <= content.len(),
            out@ + tagged_entries_s(m.skip(i as int), deeper) =~= base + tagged_entries_s(
                m,
                deeper,
            ),
        decreases content.len() - i,
    {
        let ghost tail = m.skip(i as int);
        proof {
            assert(tail[0] == m[i as int]);
            assert(tail.drop_first() =~= m.skip(i as int + 1));
        }
        let pad = spaces(deeper);
        out.append(pad.as_str());
        out.append("\"");
        out.append(content[i].0.as_str());
        out.append("\": ");
        proof {
            assert(decreases_to!(*content => content@));
            assert(decreases_to!(content@ => content@[i as int]));
            assert(decreases_to!(content@[i as int] => content@[i as int].1));
        }
        let inner = tagged(&content[i].1, deeper);
        out.append(inner.as_str());
        if i + 1 < content.len() {
            out.append(",");
        }
        out.append("\n");
        proof {
            assert(out@ + tagged_entries_s(m.skip(i as int + 1), deeper) =~= base
                + tagged_entries_s(m, deeper));
        }
        i += 1;
    }
    proof {
        assert(tagged_entries_s(m.skip(i as int), deeper) =~= Seq::<char>::empty());
        assert(out@ =~= base + tagged_entries_s(m, deeper));
    }
    let pad = spaces(indent);
    out.append(pad.as_str());
    out.append("}");
    proof {
        assert(out@ =~= tagged_map_s(m, indent));
    }
    out
}

/// The tagged rendering of a list of shapes as a JSON array.
#[verifier::loop_isolation(false)]
#[verifier::rlimit(100)]
fn tagged_list(vs: &Vec<Value>, indent: usize) -> (r: String)
    ensures
        r@ == tagged_list_s(shapes_model(vs@), indent),
    decreases *vs,
{
    let ghost m = shapes_model(vs@);
    proof {
        shapes_model_props(vs@);
    }
    if vs.len() == 0 {
        return "[]".to_owned();
    }
    let deeper: usize = if indent <= usize::MAX - 2 {
        indent + 2
    } else {
        indent
    };
    proof {
        assert(deeper == bump(indent));
        assert(m.skip(0) =~= m);
    }
    let mut out = "[\n".to_owned();
    let ghost base = out@;
    let mut i: usize = 0;
    while i < vs.len()
        invariant
            i <= vs.len(),
            out@ + tagged_items_s(m.skip(i as int), deeper) =~= base + tagged_items_s(m, deeper),
        decreases vs.len() - i,
    {
        let ghost tail = m.skip(i as int);
        proof {
            assert(tail[0] == m[i as int]);
            assert(tail.drop_first() =~= m.skip(i as int + 1));
        }
        let pad = spaces(deeper);
        out.append(pad.as_str());
        proof {
            assert(decreases_to!(*vs => vs@));
            assert(decreases_to!(vs@ => vs@[i as int]));
        }
        let inner = tagged(&vs[i], deeper);
        out.append(inner.as_str());
        if i + 1 < vs.len() {
            out.append(",");
        }
        out.append("\n");
        proof {
            assert(out@ + tagged_items_s(m.skip(i as int + 1), deeper) =~= base + tagged_items_s(
                m,
                deeper,
            ));
        }
        i += 1;
    }
    proof {
        assert(tagged_items_s(m.skip(i as int), deeper) =~= Seq::<char>::empty());
        assert(out@ =~= base + tagged_items_s(m, deeper));
    }
    let pad = spaces(indent);
    out.append(pad.as_str());
    out.append("]");
    proof {
        assert(out@ =~= tagged_list_s(m, indent));
    }
    out
}

/// The opening of a tagged variant: brace, tag line, inner brace.
fn open_tag(tag: &str, deeper: usize) -> (r: String)
    ensures
        r@ == open_tag_s(tag@, deeper),
{
    let mut out = "{\n".to_owned();
    let pad = spaces(deeper);
    out.append(pad.as_str());
    out.append("\"");
    out.append(tag);
    out.append("\": {\n");
    proof {
        assert(out@ =~= open_tag_s(tag@, deeper));
    }
    out
}

/// The closing braces of a tagged variant.
fn close_tag(indent: usize, deeper: usize) -> (r: String)
    ensures
        r@ == close_tag_s(indent, deeper),
{
    let mut out = spaces(deeper);
    out.append("}\n");
    let pad = spaces(indent);
    out.append(pad.as_str());
    out.append("}");
    proof {
        assert(out@ =~= close_tag_s(indent, deeper));
    }
    out
}

/// One indented `"key": ` prefix.
fn field_key(indent: usize, key: &str) -> (r: String)
    ensures
        r@ == field_key_s(indent, key@),
{
    let mut out = spaces(indent);
    out.append("\"");
    out.append(key);
    out.append("\": ");
    proof {
        assert(out@ =~= field_key_s(indent, key@));
    }
    out
}

/// The indented `"optional": <flag>` line.
fn optional_line(indent: usize, optional: bool) -> (r: String)
    ensures
        r@ == optional_line_s(indent, optional),
{
    let mut out = spaces(indent);
    out.append("\"optional\": ");
    out.append(
        if optional {
            "true"
        } else {
            "false"
        },
    );
    out.append("\n");
    proof {
        assert(out@ =~= optional_line_s(indent, optional));
    }
    out
}

/// A scalar's tagged form: the tag with its single `optional` field.
fn tagged_scalar(tag: &str, optional: bool, indent: usize, deeper: usize) -> (r: String)
    requires
        deeper == bump(indent),
    ensures
        r@ == scalar_tag_s(tag@, optional, indent),
{
    let deepest: usize = if deeper <= usize::MAX - 2 {
        deeper + 2
    } else {
        deeper
    };
    proof {
        assert(deepest == bump(bump(indent)));
    }
    let mut out = open_tag(tag, deeper);
    out.append(optional_line(deepest, optional).as_str());
    out.append(close_tag(indent, deeper).as_str());
    proof {
        assert(out@ =~= scalar_tag_s(tag@, optional, indent));
    }
    out
}

} // verus!
