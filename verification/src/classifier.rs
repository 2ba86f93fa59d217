//! Classification of type tokens.
//!
//! A type token is the text of a field's type. It is a primitive keyword, a
//! container keyword around an element type (`Vec<..>`, `Option<..>`), or the
//! name of a type that is defined elsewhere. Classification never fails: what
//! is neither primitive nor container is a name.

use crate::text::{
    identifier, is_identifier, is_word_char, lex, text_is, tokens_of, word_char,
};
use vstd::prelude::*;
use vstd::string::*;

verus! {

/// The built-in types whose values are read from one line of input.
#[derive(Clone, Copy, Debug, PartialEq, Eq, Structural)]
pub enum PrimitiveKind {
    U8,
    U16,
    U32,
    U64,
    U128,
    Usize,
    I8,
    I16,
    I32,
    I64,
    I128,
    Isize,
    F32,
    F64,
    Text,
    Bool,
    Char,
}

/// The shape of a field's type.
#[derive(Debug, PartialEq, Eq)]
pub enum TypeDescriptor {
    Primitive(PrimitiveKind),
    Sequence(Box<TypeDescriptor>),
    Optional(Box<TypeDescriptor>),
    Named(String),
}

/// The mathematical model of a [`TypeDescriptor`].
pub enum TypeShape {
    Primitive(PrimitiveKind),
    Sequence(Box<TypeShape>),
    Optional(Box<TypeShape>),
    Named(Seq<char>),
}

impl DeepView for TypeDescriptor {
    type V = TypeShape;

    open spec fn deep_view(&self) -> TypeShape
        decreases self,
    {
        match self {
            TypeDescriptor::Primitive(kind) => TypeShape::Primitive(*kind),
            TypeDescriptor::Sequence(element) => TypeShape::Sequence(
                Box::new((**element).deep_view()),
            ),
            TypeDescriptor::Optional(element) => TypeShape::Optional(
                Box::new((**element).deep_view()),
            ),
            TypeDescriptor::Named(name) => TypeShape::Named(name@),
        }
    }
}

/// The keyword that names a primitive kind.
pub open spec fn keyword_text(kind: PrimitiveKind) -> Seq<char> {
    match kind {
        PrimitiveKind::U8 => "u8"@,
        PrimitiveKind::U16 => "u16"@,
        PrimitiveKind::U32 => "u32"@,
        PrimitiveKind::U64 => "u64"@,
        PrimitiveKind::U128 => "u128"@,
        PrimitiveKind::Usize => "usize"@,
        PrimitiveKind::I8 => "i8"@,
        PrimitiveKind::I16 => "i16"@,
        PrimitiveKind::I32 => "i32"@,
        PrimitiveKind::I64 => "i64"@,
        PrimitiveKind::I128 => "i128"@,
        PrimitiveKind::Isize => "isize"@,
        PrimitiveKind::F32 => "f32"@,
        PrimitiveKind::F64 => "f64"@,
        PrimitiveKind::Text => "String"@,
        PrimitiveKind::Bool => "bool"@,
        PrimitiveKind::Char => "char"@,
    }
}

/// The primitive kind that a token names, if it names one.
pub open spec fn keyword_kind(token: Seq<char>) -> Option<PrimitiveKind> {
    if token == "u8"@ {
        Some(PrimitiveKind::U8)
    } else if token == "u16"@ {
        Some(PrimitiveKind::U16)
    } else if token == "u32"@ {
        Some(PrimitiveKind::U32)
    } else if token == "u64"@ {
        Some(PrimitiveKind::U64)
    } else if token == "u128"@ {
        Some(PrimitiveKind::U128)
    } else if token == "usize"@ {
        Some(PrimitiveKind::Usize)
    } else if token == "i8"@ {
        Some(PrimitiveKind::I8)
    } else if token == "i16"@ {
        Some(PrimitiveKind::I16)
    } else if token == "i32"@ {
        Some(PrimitiveKind::I32)
    } else if token == "i64"@ {
        Some(PrimitiveKind::I64)
    } else if token == "i128"@ {
        Some(PrimitiveKind::I128)
    } else if token == "isize"@ {
        Some(PrimitiveKind::Isize)
    } else if token == "f32"@ {
        Some(PrimitiveKind::F32)
    } else if token == "f64"@ {
        Some(PrimitiveKind::F64)
    } else if token == "String"@ {
        Some(PrimitiveKind::Text)
    } else if token == "bool"@ {
        Some(PrimitiveKind::Bool)
    } else if token == "char"@ {
        Some(PrimitiveKind::Char)
    } else {
        None
    }
}

/// Whether a token starts with a word character.
pub open spec fn starts_word(token: Seq<char>) -> bool {
    token.len() > 0 && is_word_char(token[0])
}

/// Whether a token ends with a word character.
pub open spec fn ends_word(token: Seq<char>) -> bool {
    token.len() > 0 && is_word_char(token.last())
}

/// What stands between two tokens of a joined text: a space where two words
/// would run together, else nothing.
pub open spec fn gap(left: Seq<char>, right: Seq<char>) -> Seq<char> {
    if ends_word(left) && starts_word(right) {
        " "@
    } else {
        Seq::empty()
    }
}

/// The tokens joined to one text, with a space only between two words.
pub open spec fn join_tokens(tokens: Seq<Seq<char>>) -> Seq<char>
    decreases tokens.len(),
{
    if tokens.len() == 0 {
        Seq::empty()
    } else if tokens.len() == 1 {
        tokens[0]
    } else {
        join_tokens(tokens.drop_last()) + gap(tokens[tokens.len() - 2], tokens.last())
            + tokens.last()
    }
}

/// The tokens are `keyword < .. >` around at least one token.
pub open spec fn wraps(tokens: Seq<Seq<char>>, keyword: Seq<char>) -> bool {
    &&& tokens.len() >= 4
    &&& tokens[0] == keyword
    &&& tokens[1] == "<"@
    &&& tokens.last() == ">"@
}

/// The shape that a type token's tokens stand for.
pub open spec fn shape_of_tokens(tokens: Seq<Seq<char>>) -> TypeShape
    decreases tokens.len(),
{
    if tokens.len() == 1 && keyword_kind(tokens[0]) is Some {
        TypeShape::Primitive(keyword_kind(tokens[0]).unwrap())
    } else if wraps(tokens, "Vec"@) {
        TypeShape::Sequence(Box::new(shape_of_tokens(tokens.subrange(2, tokens.len() - 1))))
    } else if wraps(tokens, "Option"@) {
        TypeShape::Optional(Box::new(shape_of_tokens(tokens.subrange(2, tokens.len() - 1))))
    } else {
        TypeShape::Named(join_tokens(tokens))
    }
}

/// The shape that a type token stands for.
pub open spec fn shape_of(token: Seq<char>) -> TypeShape {
    shape_of_tokens(tokens_of(token))
}

/// The identifier under which a named type is looked up: the identifier that
/// its text starts with, as in `Page<u8>` or `store::Page`, or the whole text
/// where it starts with none.
pub open spec fn reference_of(name: Seq<char>) -> Seq<char> {
    let tokens = tokens_of(name);
    if tokens.len() > 0 && is_identifier(tokens[0]) {
        tokens[0]
    } else {
        name
    }
}

/// The text of a type of the given shape.
pub open spec fn type_text(shape: TypeShape) -> Seq<char>
    decreases shape,
{
    match shape {
        TypeShape::Primitive(kind) => keyword_text(kind),
        TypeShape::Sequence(element) => "Vec<"@ + type_text(*element) + ">"@,
        TypeShape::Optional(element) => "Option<"@ + type_text(*element) + ">"@,
        TypeShape::Named(name) => name,
    }
}

/// A primitive keyword classifies as its kind.
pub proof fn law_keywords_are_primitive(kind: PrimitiveKind)
    ensures
        keyword_kind(keyword_text(kind)) == Some(kind),
        shape_of_tokens(seq![keyword_text(kind)]) == TypeShape::Primitive(kind),
{
    reveal_strlit("u8");
    reveal_strlit("u16");
    reveal_strlit("u32");
    reveal_strlit("u64");
    reveal_strlit("u128");
    reveal_strlit("usize");
    reveal_strlit("i8");
    reveal_strlit("i16");
    reveal_strlit("i32");
    reveal_strlit("i64");
    reveal_strlit("i128");
    reveal_strlit("isize");
    reveal_strlit("f32");
    reveal_strlit("f64");
    reveal_strlit("String");
    reveal_strlit("bool");
    reveal_strlit("char");
    assert("u128"@.len() == 4 && "i128"@.len() == 4 && "usize"@.len() == 5 && "isize"@.len() == 5);
    assert("u8"@.len() == 2 && "i8"@.len() == 2 && "bool"@.len() == 4 && "char"@.len() == 4);
    assert("u16"@.len() == 3 && "u32"@.len() == 3 && "u64"@.len() == 3);
    assert("i16"@.len() == 3 && "i32"@.len() == 3 && "i64"@.len() == 3);
    assert("f32"@.len() == 3 && "f64"@.len() == 3 && "String"@.len() == 6);
    assert("u8"@[0] == 'u' && "u16"@[1] == '1' && "u32"@[1] == '3' && "u64"@[1] == '6');
    assert("i8"@[0] == 'i' && "i16"@[1] == '1' && "i32"@[1] == '3' && "i64"@[1] == '6');
    assert("u128"@[0] == 'u' && "i128"@[0] == 'i' && "bool"@[0] == 'b' && "char"@[0] == 'c');
    assert("usize"@[0] == 'u' && "isize"@[0] == 'i');
    assert("f32"@[1] == '3' && "f64"@[1] == '6' && "f32"@[0] == 'f' && "f64"@[0] == 'f');
    assert("u16"@[0] == 'u' && "u32"@[0] == 'u' && "u64"@[0] == 'u');
    assert("i16"@[0] == 'i' && "i32"@[0] == 'i' && "i64"@[0] == 'i');
    match kind {
        PrimitiveKind::U8 => {
            assert(keyword_kind("u8"@) == Some(PrimitiveKind::U8));
        },
        PrimitiveKind::U16 => {
            assert(keyword_kind("u16"@) == Some(PrimitiveKind::U16));
        },
        PrimitiveKind::U32 => {
            assert(keyword_kind("u32"@) == Some(PrimitiveKind::U32));
        },
        PrimitiveKind::U64 => {
            assert(keyword_kind("u64"@) == Some(PrimitiveKind::U64));
        },
        PrimitiveKind::U128 => {
            assert(keyword_kind("u128"@) == Some(PrimitiveKind::U128));
        },
        PrimitiveKind::Usize => {
            assert(keyword_kind("usize"@) == Some(PrimitiveKind::Usize));
        },
        PrimitiveKind::I8 => {
            assert(keyword_kind("i8"@) == Some(PrimitiveKind::I8));
        },
        PrimitiveKind::I16 => {
            assert(keyword_kind("i16"@) == Some(PrimitiveKind::I16));
        },
        PrimitiveKind::I32 => {
            assert(keyword_kind("i32"@) == Some(PrimitiveKind::I32));
        },
        PrimitiveKind::I64 => {
            assert(keyword_kind("i64"@) == Some(PrimitiveKind::I64));
        },
        PrimitiveKind::I128 => {
            assert(keyword_kind("i128"@) == Some(PrimitiveKind::I128));
        },
        PrimitiveKind::Isize => {
            assert(keyword_kind("isize"@) == Some(PrimitiveKind::Isize));
        },
        PrimitiveKind::F32 => {
            assert(keyword_kind("f32"@) == Some(PrimitiveKind::F32));
        },
        PrimitiveKind::F64 => {
            assert(keyword_kind("f64"@) == Some(PrimitiveKind::F64));
        },
        PrimitiveKind::Text => {
            assert(keyword_kind("String"@) == Some(PrimitiveKind::Text));
        },
        PrimitiveKind::Bool => {
            assert(keyword_kind("bool"@) == Some(PrimitiveKind::Bool));
        },
        PrimitiveKind::Char => {
            assert(keyword_kind("char"@) == Some(PrimitiveKind::Char));
        },
    }
}

/// A container keyword around an element type classifies as that shape
/// around the shape of the element type.
pub proof fn law_containers_wrap(element: Seq<Seq<char>>)
    requires
        element.len() > 0,
    ensures
        shape_of_tokens(seq!["Vec"@, "<"@] + element + seq![">"@]) == TypeShape::Sequence(
            Box::new(shape_of_tokens(element)),
        ),
        shape_of_tokens(seq!["Option"@, "<"@] + element + seq![">"@]) == TypeShape::Optional(
            Box::new(shape_of_tokens(element)),
        ),
{
    reveal_strlit("Vec");
    reveal_strlit("Option");
    let sequence = seq!["Vec"@, "<"@] + element + seq![">"@];
    let optional = seq!["Option"@, "<"@] + element + seq![">"@];
    assert(sequence.subrange(2, sequence.len() - 1) =~= element);
    assert(optional.subrange(2, optional.len() - 1) =~= element);
    assert(sequence[0] == "Vec"@ && sequence[1] == "<"@ && sequence.last() == ">"@);
    assert(optional[0] == "Option"@ && optional[1] == "<"@ && optional.last() == ">"@);
}

/// What is neither a primitive keyword nor a container is a name: the
/// tokens joined to one text.
pub proof fn law_other_tokens_are_named(tokens: Seq<Seq<char>>)
    requires
        !(tokens.len() == 1 && keyword_kind(tokens[0]) is Some),
        !wraps(tokens, "Vec"@),
        !wraps(tokens, "Option"@),
    ensures
        shape_of_tokens(tokens) == TypeShape::Named(join_tokens(tokens)),
{
}

/// The keyword of a primitive kind.
pub fn keyword(kind: PrimitiveKind) -> (r: &'static str)
    ensures
        r@ == keyword_text(kind),
{
    match kind {
        PrimitiveKind::U8 => "u8",
        PrimitiveKind::U16 => "u16",
        PrimitiveKind::U32 => "u32",
        PrimitiveKind::U64 => "u64",
        PrimitiveKind::U128 => "u128",
        PrimitiveKind::Usize => "usize",
        PrimitiveKind::I8 => "i8",
        PrimitiveKind::I16 => "i16",
        PrimitiveKind::I32 => "i32",
        PrimitiveKind::I64 => "i64",
        PrimitiveKind::I128 => "i128",
        PrimitiveKind::Isize => "isize",
        PrimitiveKind::F32 => "f32",
        PrimitiveKind::F64 => "f64",
        PrimitiveKind::Text => "String",
        PrimitiveKind::Bool => "bool",
        PrimitiveKind::Char => "char",
    }
}

/// The primitive kind that a token names, if it names one.
pub fn primitive_kind(token: &String) -> (r: Option<PrimitiveKind>)
    ensures
        r == keyword_kind(token@),
{
    if text_is(token, "u8") {
        Some(PrimitiveKind::U8)
    } else if text_is(token, "u16") {
        Some(PrimitiveKind::U16)
    } else if text_is(token, "u32") {
        Some(PrimitiveKind::U32)
    } else if text_is(token, "u64") {
        Some(PrimitiveKind::U64)
    } else if text_is(token, "u128") {
        Some(PrimitiveKind::U128)
    } else if text_is(token, "usize") {
        Some(PrimitiveKind::Usize)
    } else if text_is(token, "i8") {
        Some(PrimitiveKind::I8)
    } else if text_is(token, "i16") {
        Some(PrimitiveKind::I16)
    } else if text_is(token, "i32") {
        Some(PrimitiveKind::I32)
    } else if text_is(token, "i64") {
        Some(PrimitiveKind::I64)
    } else if text_is(token, "i128") {
        Some(PrimitiveKind::I128)
    } else if text_is(token, "isize") {
        Some(PrimitiveKind::Isize)
    } else if text_is(token, "f32") {
        Some(PrimitiveKind::F32)
    } else if text_is(token, "f64") {
        Some(PrimitiveKind::F64)
    } else if text_is(token, "String") {
        Some(PrimitiveKind::Text)
    } else if text_is(token, "bool") {
        Some(PrimitiveKind::Bool)
    } else if text_is(token, "char") {
        Some(PrimitiveKind::Char)
    } else {
        None
    }
}

/// Whether a token starts with a word character, and whether it ends with
/// one.
pub fn word_ends(token: &String) -> (r: (bool, bool))
    ensures
        r.0 == starts_word(token@),
        r.1 == ends_word(token@),
{
    broadcast use vstd::string::group_string_axioms;

    let mut first = false;
    let mut last = false;
    let mut empty = true;
    for c in it: token.as_str().chars()
        invariant
            it.seq() == token@,
            empty == (it.index() == 0),
            first == (it.index() > 0 && is_word_char(token@[0])),
            last == (it.index() > 0 && is_word_char(token@[it.index() - 1])),
    {
        let word = word_char(c);
        if empty {
            first = word;
        }
        last = word;
        empty = false;
    }
    (first, last)
}

/// Joins the tokens from `lo` up to `hi` to one text, with a space only
/// between two words.
pub fn join(tokens: &Vec<String>, lo: usize, hi: usize) -> (r: String)
    requires
        lo <= hi <= tokens.len(),
    ensures
        r@ == join_tokens(tokens.deep_view().subrange(lo as int, hi as int)),
{
    let ghost all = tokens.deep_view();
    let mut out = String::new();
    let mut after_word = false;
    let mut i: usize = lo;
    while i < hi
        invariant
            lo <= i <= hi <= tokens.len(),
            all == tokens.deep_view(),
            out@ == join_tokens(all.subrange(lo as int, i as int)),
            i > lo ==> after_word == ends_word(all[i - 1]),
        decreases hi - i,
    {
        proof {
            let next = all.subrange(lo as int, i + 1);
            assert(next.drop_last() =~= all.subrange(lo as int, i as int));
            assert(next.last() == tokens@[i as int]@);
            if i > lo {
                assert(next[next.len() - 2] == all[i - 1]);
            }
        }
        let (starts, ends) = word_ends(&tokens[i]);
        if i > lo && after_word && starts {
            out.append(" ");
        }
        out.append(tokens[i].as_str());
        after_word = ends;
        i += 1;
    }
    out
}

/// Whether the tokens from `lo` up to `hi` are `keyword < .. >` around at
/// least one token.
fn wraps_range(tokens: &Vec<String>, lo: usize, hi: usize, keyword: &str) -> (r: bool)
    requires
        lo <= hi <= tokens.len(),
    ensures
        r == wraps(tokens.deep_view().subrange(lo as int, hi as int), keyword@),
{
    hi - lo >= 4 && text_is(&tokens[lo], keyword) && text_is(&tokens[lo + 1], "<") && text_is(
        &tokens[hi - 1],
        ">",
    )
}

/// Classifies the tokens from `lo` up to `hi` as one type token.
pub fn classify_range(tokens: &Vec<String>, lo: usize, hi: usize) -> (r: TypeDescriptor)
    requires
        lo <= hi <= tokens.len(),
    ensures
        r.deep_view() == shape_of_tokens(tokens.deep_view().subrange(lo as int, hi as int)),
    decreases hi - lo,
{
    let ghost part = tokens.deep_view().subrange(lo as int, hi as int);
    proof {
        if hi - lo >= 4 {
            assert(part.subrange(2, part.len() - 1) =~= tokens.deep_view().subrange(
                lo + 2,
                hi - 1,
            ));
        }
    }
    if hi - lo == 1 {
        if let Some(kind) = primitive_kind(&tokens[lo]) {
            return TypeDescriptor::Primitive(kind);
        }
    }
    if wraps_range(tokens, lo, hi, "Vec") {
        TypeDescriptor::Sequence(Box::new(classify_range(tokens, lo + 2, hi - 1)))
    } else if wraps_range(tokens, lo, hi, "Option") {
        TypeDescriptor::Optional(Box::new(classify_range(tokens, lo + 2, hi - 1)))
    } else {
        TypeDescriptor::Named(join(tokens, lo, hi))
    }
}

/// Classifies a type token that is already cut into tokens.
pub fn classify_tokens(tokens: &Vec<String>) -> (r: TypeDescriptor)
    ensures
        r.deep_view() == shape_of_tokens(tokens.deep_view()),
{
    assert(tokens.deep_view().subrange(0, tokens.len() as int) =~= tokens.deep_view());
    classify_range(tokens, 0, tokens.len())
}

/// The identifier under which a named type is looked up.
pub fn reference_name(name: &String) -> (r: String)
    ensures
        r@ == reference_of(name@),
{
    let tokens = lex(name.as_str());
    if tokens.len() > 0 && identifier(&tokens[0]) {
        tokens[0].clone()
    } else {
        name.clone()
    }
}

/// Classifies a type token. A primitive keyword gives its kind, a container
/// keyword around an element type gives that shape around the element's, and
/// every other token is the name of a type defined elsewhere.
pub fn classify(token: &str) -> (r: TypeDescriptor)
    ensures
        r.deep_view() == shape_of(token@),
{
    let tokens = lex(token);
    classify_tokens(&tokens)
}

impl Clone for TypeDescriptor {
    fn clone(&self) -> (r: TypeDescriptor)
        ensures
            r.deep_view() == self.deep_view(),
        decreases self,
    {
        match self {
            TypeDescriptor::Primitive(kind) => TypeDescriptor::Primitive(*kind),
            TypeDescriptor::Sequence(element) => {
                let inner: &TypeDescriptor = element;
                TypeDescriptor::Sequence(Box::new(inner.clone()))
            },
            TypeDescriptor::Optional(element) => {
                let inner: &TypeDescriptor = element;
                TypeDescriptor::Optional(Box::new(inner.clone()))
            },
            TypeDescriptor::Named(name) => TypeDescriptor::Named(name.clone()),
        }
    }
}

impl TypeDescriptor {
    /// Appends the text of the type to `out`.
    pub fn write(&self, out: &mut String)
        ensures
            final(out)@ == old(out)@ + type_text(self.deep_view()),
        decreases self,
    {
        match self {
            TypeDescriptor::Primitive(kind) => {
                out.append(keyword(*kind));
            },
            TypeDescriptor::Sequence(element) => {
                out.append("Vec<");
                element.write(out);
                out.append(">");
            },
            TypeDescriptor::Optional(element) => {
                out.append("Option<");
                element.write(out);
                out.append(">");
            },
            TypeDescriptor::Named(name) => {
                out.append(name.as_str());
            },
        }
    }
}

} // verus!
