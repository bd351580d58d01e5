//! The shape data model: a tagged tree of JSON structural types.

use vstd::prelude::*;

verus! {

/// Mathematical model of a shape: the view of [`Value`].
///
/// Object fields are kept sorted by key and union variants are kept sorted by
/// the total shape order, so a shape in canonical form has exactly one model.
#[verifier::ext_equal]
pub enum Shape {
    /// Matches exactly the JSON `null` literal.
    Null,
    /// A JSON boolean; `optional` also admits `null`.
    Bool { optional: bool },
    /// A JSON number; `optional` also admits `null`.
    Number { optional: bool },
    /// A JSON string; `optional` also admits `null`.
    Str { optional: bool },
    /// A homogeneous, variable-length list.
    Array { element: Box<Shape>, optional: bool },
    /// A mapping of keys to shapes, sorted by key.
    Object { content: Seq<(Seq<char>, Shape)>, optional: bool },
    /// A union of shapes, sorted and deduplicated.
    OneOf { variants: Seq<Shape>, optional: bool },
    /// A fixed-length list: position `i` always holds `elements[i]`.
    Tuple { elements: Seq<Shape>, optional: bool },
}

/// Represents any valid JSON value shape.
#[derive(Debug, PartialEq, Eq)]
pub enum Value {
    /// Represents a JSON null value.
    Null,
    /// Represents a JSON boolean.
    Bool {
        /// If type is optional
        optional: bool,
    },
    /// Represents a JSON number.
    Number {
        /// If type is optional
        optional: bool,
    },
    /// Represents a JSON string.
    String {
        /// If type is optional
        optional: bool,
    },
    /// Represents a JSON array.
    Array {
        /// Type contained in the Array
        element: Box<Value>,
        /// If type is optional
        optional: bool,
    },
    /// Represents a JSON object.
    Object {
        /// Object internal members, with key as `String` and value as [`Value`],
        /// kept sorted by key with unique keys.
        content: Vec<(String, Value)>,
        /// If type is optional
        optional: bool,
    },
    /// Represents a JSON Value that can assume one of the Values described.
    OneOf {
        /// All possible shapes, kept sorted and deduplicated.
        variants: Vec<Value>,
        /// If type is optional
        optional: bool,
    },
    /// Represents a JSON Array that behaves like a tuple:
    /// positions always hold the same shapes in the same order.
    Tuple {
        /// Shapes in positional order
        elements: Vec<Value>,
        /// If type is optional
        optional: bool,
    },
}

/// The model of an executable shape tree.
pub open spec fn shape_of(v: Value) -> Shape
    decreases v,
{
    match v {
        Value::Null => Shape::Null,
        Value::Bool { optional } => Shape::Bool { optional },
        Value::Number { optional } => Shape::Number { optional },
        Value::String { optional } => Shape::Str { optional },
        Value::Array { element, optional } => Shape::Array {
            element: Box::new(shape_of(*element)),
            optional,
        },
        Value::Object { content, optional } => {
            proof {
                let c = v->Object_content;
                assert(decreases_to!(v => c));
                assert(decreases_to!(c => c@));
            }
            Shape::Object { content: fields_model(content@), optional }
        },
        Value::OneOf { variants, optional } => {
            proof {
                let c = v->OneOf_variants;
                assert(decreases_to!(v => c));
                assert(decreases_to!(c => c@));
            }
            Shape::OneOf { variants: shapes_model(variants@), optional }
        },
        Value::Tuple { elements, optional } => {
            proof {
                let c = v->Tuple_elements;
                assert(decreases_to!(v => c));
                assert(decreases_to!(c => c@));
            }
            Shape::Tuple { elements: shapes_model(elements@), optional }
        },
    }
}

/// The models of a sequence of shape trees, elementwise.
pub open spec fn shapes_model(s: Seq<Value>) -> Seq<Shape>
    decreases s,
{
    if s.len() == 0 {
        Seq::empty()
    } else {
        proof {
            assert(decreases_to!(s => s[0]));
        }
        shapes_model(s.drop_first()).insert(0, shape_of(s[0]))
    }
}

/// The models of a sequence of keyed shape trees, elementwise.
pub open spec fn fields_model(s: Seq<(String, Value)>) -> Seq<(Seq<char>, Shape)>
    decreases s,
{
    if s.len() == 0 {
        Seq::empty()
    } else {
        proof {
            assert(decreases_to!(s => s[0]));
        }
        fields_model(s.drop_first()).insert(0, (s[0].0@, shape_of(s[0].1)))
    }
}

/// `shapes_model` maps the element models pointwise.
pub broadcast proof fn shapes_model_props(s: Seq<Value>)
    ensures
        #[trigger] shapes_model(s).len() == s.len(),
        forall|i: int| 0 <= i < s.len() ==> shapes_model(s)[i] == shape_of(s[i]),
    decreases s.len(),
{
    if s.len() > 0 {
        shapes_model_props(s.drop_first());
    }
}

/// `fields_model` maps the keys and element models pointwise.
pub broadcast proof fn fields_model_props(s: Seq<(String, Value)>)
    ensures
        #[trigger] fields_model(s).len() == s.len(),
        forall|i: int|
            0 <= i < s.len() ==> fields_model(s)[i] == (s[i].0@, shape_of(s[i].1)),
    decreases s.len(),
{
    if s.len() > 0 {
        fields_model_props(s.drop_first());
    }
}

impl View for Value {
    type V = Shape;

    open spec fn view(&self) -> Shape {
        shape_of(*self)
    }
}

impl Shape {
    /// Whether a shape accepts `null` in addition to its main kind.
    /// `Null` itself counts as trivially optional.
    pub open spec fn opt(self) -> bool {
        match self {
            Shape::Null => true,
            Shape::Bool { optional } => optional,
            Shape::Number { optional } => optional,
            Shape::Str { optional } => optional,
            Shape::Array { optional, .. } => optional,
            Shape::Object { optional, .. } => optional,
            Shape::OneOf { optional, .. } => optional,
            Shape::Tuple { optional, .. } => optional,
        }
    }

    /// The same shape with its own optional flag set; `Null` is unchanged.
    pub open spec fn as_opt(self) -> Shape {
        match self {
            Shape::Null => Shape::Null,
            Shape::Bool { .. } => Shape::Bool { optional: true },
            Shape::Number { .. } => Shape::Number { optional: true },
            Shape::Str { .. } => Shape::Str { optional: true },
            Shape::Array { element, .. } => Shape::Array { element, optional: true },
            Shape::Object { content, .. } => Shape::Object { content, optional: true },
            Shape::OneOf { variants, .. } => Shape::OneOf { variants, optional: true },
            Shape::Tuple { elements, .. } => Shape::Tuple { elements, optional: true },
        }
    }

    /// The same shape with its own optional flag cleared; `Null` is unchanged.
    pub open spec fn as_non_opt(self) -> Shape {
        match self {
            Shape::Null => Shape::Null,
            Shape::Bool { .. } => Shape::Bool { optional: false },
            Shape::Number { .. } => Shape::Number { optional: false },
            Shape::Str { .. } => Shape::Str { optional: false },
            Shape::Array { element, .. } => Shape::Array { element, optional: false },
            Shape::Object { content, .. } => Shape::Object { content, optional: false },
            Shape::OneOf { variants, .. } => Shape::OneOf { variants, optional: false },
            Shape::Tuple { elements, .. } => Shape::Tuple { elements, optional: false },
        }
    }
}

impl Clone for Value {
    /// Structural deep copy; the copy has the same model as the original.
    #[verifier::loop_isolation(false)]
    fn clone(&self) -> (r: Value)
        ensures
            r@ == self@,
        decreases self,
    {
        match self {
            Value::Null => Value::Null,
            Value::Bool { optional } => Value::Bool { optional: *optional },
            Value::Number { optional } => Value::Number { optional: *optional },
            Value::String { optional } => Value::String { optional: *optional },
            Value::Array { element, optional } => Value::Array {
                element: Box::new((**element).clone()),
                optional: *optional,
            },
            Value::Object { content, optional } => {
                let mut out: Vec<(String, Value)> = Vec::new();
                let mut i: usize = 0;
                while i < content.len()
                    invariant
                        i <= content.len(),
                        out@.len() == i as int,
                        forall|j: int|
                            0 <= j < i as int ==> out@[j].0@ == content@[j].0@ && out@[j].1@
                                == content@[j].1@,
                    decreases content.len() - i,
                {
                    proof {
                        let c = (*self)->Object_content;
                        assert(decreases_to!(*self => c));
                        assert(decreases_to!(c => c@));
                        assert(decreases_to!(c@ => c@[i as int]));
                    }
                    let key: String = content[i].0.clone();
                    let val: Value = content[i].1.clone();
                    out.push((key, val));
                    i += 1;
                }
                let r = Value::Object { content: out, optional: *optional };
                proof {
                    fields_model_props(out@);
                    fields_model_props(content@);
                    assert(fields_model(out@) =~= fields_model(content@));
                }
                r
            },
            Value::OneOf { variants, optional } => {
                let mut out: Vec<Value> = Vec::new();
                let mut i: usize = 0;
                while i < variants.len()
                    invariant
                        i <= variants.len(),
                        out@.len() == i as int,
                        forall|j: int| 0 <= j < i as int ==> out@[j]@ == variants@[j]@,
                    decreases variants.len() - i,
                {
                    proof {
                        let c = (*self)->OneOf_variants;
                        assert(decreases_to!(*self => c));
                        assert(decreases_to!(c => c@));
                        assert(decreases_to!(c@ => c@[i as int]));
                    }
                    let val: Value = variants[i].clone();
                    out.push(val);
                    i += 1;
                }
                let r = Value::OneOf { variants: out, optional: *optional };
                proof {
                    shapes_model_props(out@);
                    shapes_model_props(variants@);
                    assert(shapes_model(out@) =~= shapes_model(variants@));
                }
                r
            },
            Value::Tuple { elements, optional } => {
                let mut out: Vec<Value> = Vec::new();
                let mut i: usize = 0;
                while i < elements.len()
                    invariant
                        i <= elements.len(),
                        out@.len() == i as int,
                        forall|j: int| 0 <= j < i as int ==> out@[j]@ == elements@[j]@,
                    decreases elements.len() - i,
                {
                    proof {
                        let c = (*self)->Tuple_elements;
                        assert(decreases_to!(*self => c));
                        assert(decreases_to!(c => c@));
                        assert(decreases_to!(c@ => c@[i as int]));
                    }
                    let val: Value = elements[i].clone();
                    out.push(val);
                    i += 1;
                }
                let r = Value::Tuple { elements: out, optional: *optional };
                proof {
                    shapes_model_props(out@);
                    shapes_model_props(elements@);
                    assert(shapes_model(out@) =~= shapes_model(elements@));
                }
                r
            },
        }
    }
}

impl Value {
    /// Is this shape optional? eg, `Option<String>`
    pub fn is_optional(&self) -> (r: bool)
        ensures
            r == self@.opt(),
    {
        match self {
            Value::Null => true,
            Value::Bool { optional } => *optional,
            Value::Number { optional } => *optional,
            Value::String { optional } => *optional,
            Value::Array { optional, .. } => *optional,
            Value::Object { optional, .. } => *optional,
            Value::OneOf { optional, .. } => *optional,
            Value::Tuple { optional, .. } => *optional,
        }
    }

    /// The same shape, marked optional; `Null` is already optional.
    pub fn as_optional(self) -> (r: Self)
        ensures
            r@ == self@.as_opt(),
    {
        match self {
            Value::Null => Value::Null,
            Value::Bool { .. } => Value::Bool { optional: true },
            Value::Number { .. } => Value::Number { optional: true },
            Value::String { .. } => Value::String { optional: true },
            Value::Array { element, .. } => Value::Array { element, optional: true },
            Value::Object { content, .. } => Value::Object { content, optional: true },
            Value::OneOf { variants, .. } => Value::OneOf { variants, optional: true },
            Value::Tuple { elements, .. } => Value::Tuple { elements, optional: true },
        }
    }

    /// The same shape, with its optional flag cleared; `Null` is unchanged.
    pub fn as_non_optional(self) -> (r: Self)
        ensures
            r@ == self@.as_non_opt(),
    {
        match self {
            Value::Null => Value::Null,
            Value::Bool { .. } => Value::Bool { optional: false },
            Value::Number { .. } => Value::Number { optional: false },
            Value::String { .. } => Value::String { optional: false },
            Value::Array { element, .. } => Value::Array { element, optional: false },
            Value::Object { content, .. } => Value::Object { content, optional: false },
            Value::OneOf { variants, .. } => Value::OneOf { variants, optional: false },
            Value::Tuple { elements, .. } => Value::Tuple { elements, optional: false },
        }
    }

    /// Marks the shape optional in place.
    pub fn to_optional_mut(&mut self)
        ensures
            final(self)@ == old(self)@.as_opt(),
    {
        let mut tmp = Value::Null;
        core::mem::swap(self, &mut tmp);
        let widened = tmp.as_optional();
        *self = widened;
    }

    /// Return the keys contained in an object shape, in stored (sorted) order.
    pub fn keys(&self) -> (r: Option<Vec<String>>)
        ensures
            match r {
                Some(ks) => self@ matches Shape::Object { content, .. } && ks@.len()
                    == content.len() && forall|i: int|
                    0 <= i < content.len() ==> ks@[i]@ == content[i].0,
                None => !(self@ is Object),
            },
    {
        if let Value::Object { content, .. } = self {
            let mut ks: Vec<String> = Vec::new();
            let mut i: usize = 0;
            #[verifier::loop_isolation(false)]
            while i < content.len()
                invariant
                    i <= content.len(),
                    ks@.len() == i as int,
                    forall|j: int| 0 <= j < i as int ==> ks@[j]@ == content@[j].0@,
                decreases content.len() - i,
            {
                let k = content[i].0.clone();
                ks.push(k);
                i += 1;
            }
            proof {
                fields_model_props(content@);
            }
            Some(ks)
        } else {
            None
        }
    }

    /// Checks if Json Node is null
    pub fn is_null(&self) -> (r: bool)
        ensures
            r == (self@ is Null),
    {
        matches!(self, Value::Null)
    }

    /// Checks if Json Node is boolean
    pub fn is_boolean(&self) -> (r: bool)
        ensures
            r == (self@ is Bool),
    {
        matches!(self, Value::Bool { .. })
    }

    /// Checks if Json Node is number
    pub fn is_number(&self) -> (r: bool)
        ensures
            r == (self@ is Number),
    {
        matches!(self, Value::Number { .. })
    }

    /// Checks if Json Node is string
    pub fn is_string(&self) -> (r: bool)
        ensures
            r == (self@ is Str),
    {
        matches!(self, Value::String { .. })
    }

    /// Checks if Json Node is array
    pub fn is_array(&self) -> (r: bool)
        ensures
            r == (self@ is Array),
    {
        matches!(self, Value::Array { .. })
    }

    /// Checks if Json Node is tuple
    pub fn is_tuple(&self) -> (r: bool)
        ensures
            r == (self@ is Tuple),
    {
        matches!(self, Value::Tuple { .. })
    }

    /// Checks if Json Node is object
    pub fn is_object(&self) -> (r: bool)
        ensures
            r == (self@ is Object),
    {
        matches!(self, Value::Object { .. })
    }

    /// Checks if Json Node is one of
    pub fn is_oneof(&self) -> (r: bool)
        ensures
            r == (self@ is OneOf),
    {
        matches!(self, Value::OneOf { .. })
    }
}

} // verus!
