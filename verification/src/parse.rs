//! The schema language: text in, type definitions out.
//!
//! ```text
//! file      ::= (typedef ws)*
//! typedef   ::= struct | enum
//! struct    ::= 'struct' ident typeparams? '{' fields '}'
//! enum      ::= 'enum' ident typeparams? '{' variants '}'
//! typeparams::= '<' ident (',' ident)* ','? '>'
//! fields    ::= (field (',' field)* ','?)?
//! field     ::= ident ':' type
//! variants  ::= (variant (',' variant)* ','?)?
//! variant   ::= ident ('{' fields '}')?
//! type      ::= prim | 'box' '<' type '>' | '[' type ']'
//!             | 'option' '<' type '>' | 'result' '<' type ',' type '>'
//!             | qualident typeargs?
//! typeargs  ::= '<' type (',' type)* ','? '>'
//! qualident ::= (ident '.')? ident
//! ident     ::= [A-Za-z0-9_]+
//! ```
//!
//! A parser reads at a position and either is done, with a value and the
//! position behind what it read, or fails. A failure is an error, after
//! which another alternative may be tried at the same position, or, once
//! an opening brace was read, final.
use vstd::prelude::*;
use vstd::string::StringSliceAdditionalSpecFns;

use crate::text::push_char;
use crate::ast::{
    lemma_defined_view,
    field_views, name_views, type_def_views, type_views, variant_views, BodyView, Enum,
    EnumVariant, FieldView, IdentView, NamedField, PrimitiveType, QualifiedIdentifier, Struct,
    Type, TypeBody, TypeDef, TypeDefView, TypeView, VariantView,
};

verus! {

/// What a parser makes of the input at a position, in the grammar.
pub enum Reading<T> {
    /// A value, and the position behind what was read.
    Done(T, nat),
    /// Nothing that this parser reads is here.
    Error,
    /// What was begun here cannot be finished.
    Failure,
}

/// What a parser returns: like `Reading`, over values as the program
/// holds them.
#[derive(Debug)]
pub enum Parsed<T> {
    Done(T, usize),
    Error,
    Failure,
}

impl<T> Parsed<T> {
    /// The value and the number of bytes read, or the kind of failure.
    pub fn unwrap(self) -> (done: (usize, T))
        requires
            self is Done,
        ensures
            self == Parsed::Done(done.1, done.0),
    {
        match self {
            Parsed::Done(value, next) => (next, value),
            _ => vstd::pervasive::unreached(),
        }
    }

    pub fn is_done(&self) -> (done: bool)
        ensures
            done == (self is Done),
    {
        match self {
            Parsed::Done(_, _) => true,
            _ => false,
        }
    }
}

pub open spec fn is_space(b: u8) -> bool {
    b == 0x20 || b == 0x09 || b == 0x0d || b == 0x0a
}

pub open spec fn is_ident_byte(b: u8) -> bool {
    (0x30 <= b <= 0x39) || (0x41 <= b <= 0x5a) || (0x61 <= b <= 0x7a) || b == 0x5f
}

/// The first position from `pos` on that holds no white space.
pub open spec fn skip_spaces(input: Seq<u8>, pos: nat) -> nat
    decreases input.len() - pos,
{
    if pos < input.len() && is_space(input[pos as int]) {
        skip_spaces(input, pos + 1)
    } else {
        pos
    }
}

/// The first position from `pos` on that holds no byte of an identifier.
pub open spec fn ident_end(input: Seq<u8>, pos: nat) -> nat
    decreases input.len() - pos,
{
    if pos < input.len() && is_ident_byte(input[pos as int]) {
        ident_end(input, pos + 1)
    } else {
        pos
    }
}

/// White space is skipped forward, and not beyond the end.
pub proof fn lemma_skip_spaces(input: Seq<u8>, pos: nat)
    ensures
        pos <= skip_spaces(input, pos),
        pos <= input.len() ==> skip_spaces(input, pos) <= input.len(),
    decreases input.len() - pos,
{
    if pos < input.len() && is_space(input[pos as int]) {
        lemma_skip_spaces(input, pos + 1);
    }
}

/// An identifier ends behind where it starts, and not beyond the end.
pub proof fn lemma_ident_end(input: Seq<u8>, pos: nat)
    ensures
        pos <= ident_end(input, pos),
        pos <= input.len() ==> ident_end(input, pos) <= input.len(),
        forall|i: int| pos <= i < ident_end(input, pos) ==> is_ident_byte(input[i]),
    decreases input.len() - pos,
{
    if pos < input.len() && is_ident_byte(input[pos as int]) {
        lemma_ident_end(input, pos + 1);
    }
}

/// A reading that moved forward from `pos` within the input: `read` if it
/// failed or ended behind `pos` and not beyond the end, else an error.
pub open spec fn forward<T>(input: Seq<u8>, pos: nat, read: Reading<T>) -> Reading<T> {
    match read {
        Reading::Done(_, next) => if pos < next <= input.len() {
            read
        } else {
            Reading::Error
        },
        _ => read,
    }
}

/// Whether the byte `b` stands at `pos`.
pub open spec fn byte_at(input: Seq<u8>, pos: nat, b: u8) -> bool {
    pos < input.len() && input[pos as int] == b
}

/// Whether the bytes `tag` stand at `pos`.
pub open spec fn has_tag(input: Seq<u8>, pos: nat, tag: Seq<u8>) -> bool {
    pos + tag.len() <= input.len() && input.subrange(pos as int, pos + tag.len() as int) == tag
}

/// The text of bytes that are all ASCII.
pub open spec fn ascii_text(bytes: Seq<u8>) -> Seq<char> {
    Seq::new(bytes.len(), |i: int| bytes[i] as char)
}

/// The position behind an optional comma at `pos`.
pub open spec fn skip_comma(input: Seq<u8>, pos: nat) -> nat {
    if byte_at(input, pos, 0x2c) {
        pos + 1
    } else {
        pos
    }
}

/// `ident`: one byte or more of letters, digits and underscores.
pub open spec fn read_identifier(input: Seq<u8>, pos: nat) -> Reading<Seq<char>> {
    if ident_end(input, pos) == pos {
        Reading::Error
    } else {
        Reading::Done(
            ascii_text(input.subrange(pos as int, ident_end(input, pos) as int)),
            ident_end(input, pos),
        )
    }
}

/// `qualident`: a name, or a module, a dot and a name.
pub open spec fn read_qualified_identifier(input: Seq<u8>, pos: nat) -> Reading<IdentView> {
    match read_identifier(input, pos) {
        Reading::Done(first, next) => if byte_at(input, next, 0x2e) {
            match read_identifier(input, next + 1) {
                Reading::Done(name, end) => Reading::Done(
                    IdentView { name, module: Some(first) },
                    end,
                ),
                _ => Reading::Error,
            }
        } else {
            Reading::Done(IdentView { name: first, module: None }, next)
        },
        _ => Reading::Error,
    }
}

/// A name ends behind where it starts, and not beyond the end.
pub proof fn lemma_read_qualified_identifier(input: Seq<u8>, pos: nat)
    requires
        pos <= input.len(),
    ensures
        read_identifier(input, pos) matches Reading::Done(_, next) ==> pos < next <= input.len(),
        read_qualified_identifier(input, pos) matches Reading::Done(_, next) ==> pos < next
            <= input.len(),
{
    lemma_ident_end(input, pos);
    let next = ident_end(input, pos);
    if next < input.len() {
        lemma_ident_end(input, next + 1);
    }
}

/// The built-in type without parts whose keyword stands at `pos`, tried
/// in the order given. A keyword is read wherever its letters stand,
/// whatever follows them.
pub open spec fn read_keyword_ty(input: Seq<u8>, pos: nat) -> Reading<TypeView> {
    if has_tag(input, pos, "void".spec_bytes()) {
        Reading::Done(TypeView::Void, pos + "void".spec_bytes().len())
    } else if has_tag(input, pos, "u8".spec_bytes()) {
        Reading::Done(TypeView::U8, pos + "u8".spec_bytes().len())
    } else if has_tag(input, pos, "u16".spec_bytes()) {
        Reading::Done(TypeView::U16, pos + "u16".spec_bytes().len())
    } else if has_tag(input, pos, "u32".spec_bytes()) {
        Reading::Done(TypeView::U32, pos + "u32".spec_bytes().len())
    } else if has_tag(input, pos, "u64".spec_bytes()) {
        Reading::Done(TypeView::U64, pos + "u64".spec_bytes().len())
    } else if has_tag(input, pos, "u128".spec_bytes()) {
        Reading::Done(TypeView::U128, pos + "u128".spec_bytes().len())
    } else if has_tag(input, pos, "i8".spec_bytes()) {
        Reading::Done(TypeView::I8, pos + "i8".spec_bytes().len())
    } else if has_tag(input, pos, "i16".spec_bytes()) {
        Reading::Done(TypeView::I16, pos + "i16".spec_bytes().len())
    } else if has_tag(input, pos, "i32".spec_bytes()) {
        Reading::Done(TypeView::I32, pos + "i32".spec_bytes().len())
    } else if has_tag(input, pos, "i64".spec_bytes()) {
        Reading::Done(TypeView::I64, pos + "i64".spec_bytes().len())
    } else if has_tag(input, pos, "i128".spec_bytes()) {
        Reading::Done(TypeView::I128, pos + "i128".spec_bytes().len())
    } else if has_tag(input, pos, "f32".spec_bytes()) {
        Reading::Done(TypeView::F32, pos + "f32".spec_bytes().len())
    } else if has_tag(input, pos, "f64".spec_bytes()) {
        Reading::Done(TypeView::F64, pos + "f64".spec_bytes().len())
    } else if has_tag(input, pos, "bool".spec_bytes()) {
        Reading::Done(TypeView::Bool, pos + "bool".spec_bytes().len())
    } else if has_tag(input, pos, "string".spec_bytes()) {
        Reading::Done(TypeView::String, pos + "string".spec_bytes().len())
    } else {
        Reading::Error
    }
}

/// `type`: a built-in type, else a reference to a definition.
pub open spec fn read_ty(input: Seq<u8>, pos: nat) -> Reading<TypeView>
    decreases input.len() - pos, 3nat,
{
    match read_builtin_ty(input, pos) {
        Reading::Error => read_defined_ty(input, pos),
        read => read,
    }
}

/// A built-in type: a keyword, a box, a list, an option or a result,
/// tried in this order.
pub open spec fn read_builtin_ty(input: Seq<u8>, pos: nat) -> Reading<TypeView>
    decreases input.len() - pos, 2nat,
{
    match read_keyword_ty(input, pos) {
        Reading::Error => match read_angle_ty(input, pos, "box".spec_bytes()) {
            Reading::Done(inner, next) => Reading::Done(TypeView::Box(Box::new(inner)), next),
            Reading::Failure => Reading::Failure,
            Reading::Error => match read_list_ty(input, pos) {
                Reading::Error => match read_angle_ty(input, pos, "option".spec_bytes()) {
                    Reading::Done(inner, next) => Reading::Done(
                        TypeView::Option(Box::new(inner)),
                        next,
                    ),
                    Reading::Failure => Reading::Failure,
                    Reading::Error => read_result_ty(input, pos),
                },
                read => read,
            },
        },
        read => read,
    }
}

/// The type in angle brackets behind the keyword `tag`: `box<T>` and
/// `option<T>`, with white space allowed around the brackets and the type.
pub open spec fn read_angle_ty(input: Seq<u8>, pos: nat, tag: Seq<u8>) -> Reading<TypeView>
    decreases input.len() - pos, 1nat,
{
    if !has_tag(input, pos, tag) {
        Reading::Error
    } else {
        let open = skip_spaces(input, pos + tag.len());
        if !byte_at(input, open, 0x3c) {
            Reading::Error
        } else {
            proof {
                lemma_skip_spaces(input, pos + tag.len());
                lemma_skip_spaces(input, open + 1);
            }
            match read_ty(input, skip_spaces(input, open + 1)) {
                Reading::Done(inner, next) => if byte_at(input, skip_spaces(input, next), 0x3e) {
                    Reading::Done(inner, skip_spaces(input, next) + 1)
                } else {
                    Reading::Error
                },
                read => read,
            }
        }
    }
}

/// `[T]`, with white space allowed around the type.
pub open spec fn read_list_ty(input: Seq<u8>, pos: nat) -> Reading<TypeView>
    decreases input.len() - pos, 1nat,
{
    if !byte_at(input, pos, 0x5b) {
        Reading::Error
    } else {
        proof {
            lemma_skip_spaces(input, pos + 1);
        }
        match read_ty(input, skip_spaces(input, pos + 1)) {
            Reading::Done(item, next) => if byte_at(input, skip_spaces(input, next), 0x5d) {
                Reading::Done(TypeView::List(Box::new(item)), skip_spaces(input, next) + 1)
            } else {
                Reading::Error
            },
            read => read,
        }
    }
}

/// `result<O, E>`, with white space allowed before the bracket, around
/// the comma and before the closing bracket, and a comma allowed behind
/// the second type.
pub open spec fn read_result_ty(input: Seq<u8>, pos: nat) -> Reading<TypeView>
    decreases input.len() - pos, 1nat,
{
    if !has_tag(input, pos, "result".spec_bytes()) {
        Reading::Error
    } else {
        let open = skip_spaces(input, pos + "result".spec_bytes().len());
        if !byte_at(input, open, 0x3c) {
            Reading::Error
        } else {
            proof {
                lemma_skip_spaces(input, pos + "result".spec_bytes().len());
            }
            match forward(input, pos, read_ty(input, open + 1)) {
                Reading::Done(ok, next) => {
                    let comma = skip_spaces(input, next);
                    if !byte_at(input, comma, 0x2c) {
                        Reading::Error
                    } else {
                        proof {
                            lemma_skip_spaces(input, next);
                            lemma_skip_spaces(input, comma + 1);
                        }
                        match read_ty(input, skip_spaces(input, comma + 1)) {
                            Reading::Done(err, end) => {
                                let close = skip_spaces(
                                    input,
                                    skip_comma(input, skip_spaces(input, end)),
                                );
                                if byte_at(input, close, 0x3e) {
                                    Reading::Done(
                                        TypeView::Result(Box::new(ok), Box::new(err)),
                                        close + 1,
                                    )
                                } else {
                                    Reading::Error
                                }
                            },
                            read => read,
                        }
                    }
                },
                read => read,
            }
        }
    }
}

/// A reference to a definition: a name, and its type arguments if a list
/// of them follows.
pub open spec fn read_defined_ty(input: Seq<u8>, pos: nat) -> Reading<TypeView>
    decreases input.len() - pos, 2nat,
{
    match read_qualified_identifier(input, pos) {
        Reading::Done(ident, next) => {
            proof {
                lemma_read_qualified_identifier(input, pos);
                lemma_skip_spaces(input, next);
            }
            match read_type_args_list(input, skip_spaces(input, next)) {
                Reading::Done(args, end) => Reading::Done(TypeView::Defined { ident, args }, end),
                Reading::Error => Reading::Done(
                    TypeView::Defined { ident, args: Seq::empty() },
                    skip_spaces(input, next),
                ),
                Reading::Failure => Reading::Failure,
            }
        },
        _ => Reading::Error,
    }
}

/// `typeargs`: types in angle brackets, with commas between and white
/// space allowed before each type and each comma.
pub open spec fn read_type_args_list(input: Seq<u8>, pos: nat) -> Reading<Seq<TypeView>>
    decreases input.len() - pos, 1nat,
{
    if !byte_at(input, pos, 0x3c) {
        Reading::Error
    } else {
        proof {
            lemma_skip_spaces(input, pos + 1);
        }
        match forward(input, pos, read_ty(input, skip_spaces(input, pos + 1))) {
            Reading::Done(first, next) => match read_more_types(input, next, seq![first]) {
                Reading::Done(args, end) => read_list_close(input, end, args),
                Reading::Error => Reading::Error,
                Reading::Failure => Reading::Failure,
            },
            Reading::Error => read_list_close(input, pos + 1, Seq::<TypeView>::empty()),
            Reading::Failure => Reading::Failure,
        }
    }
}

/// The end of a list in angle brackets: a comma if there is one, then the
/// closing bracket, with white space allowed before each.
pub open spec fn read_list_close<T>(input: Seq<u8>, pos: nat, items: Seq<T>) -> Reading<Seq<T>> {
    let close = skip_spaces(input, skip_comma(input, skip_spaces(input, pos)));
    if byte_at(input, close, 0x3e) {
        Reading::Done(items, close + 1)
    } else {
        Reading::Error
    }
}

/// The types that follow `items` at `pos`, each behind a comma. The list
/// ends, before the comma, where no type follows one.
pub open spec fn read_more_types(input: Seq<u8>, pos: nat, items: Seq<TypeView>) -> Reading<
    Seq<TypeView>,
>
    decreases input.len() - pos, 0nat,
{
    let comma = skip_spaces(input, pos);
    if !byte_at(input, comma, 0x2c) {
        Reading::Done(items, pos)
    } else {
        proof {
            lemma_skip_spaces(input, pos);
            lemma_skip_spaces(input, comma + 1);
        }
        match forward(input, pos, read_ty(input, skip_spaces(input, comma + 1))) {
            Reading::Done(item, next) => read_more_types(input, next, items.push(item)),
            Reading::Error => Reading::Done(items, pos),
            Reading::Failure => Reading::Failure,
        }
    }
}

/// A type ends behind where it starts, and not beyond the end.
pub proof fn lemma_read_ty_forward(input: Seq<u8>, pos: nat)
    requires
        pos <= input.len(),
    ensures
        read_ty(input, pos) matches Reading::Done(_, next) ==> pos < next <= input.len(),
    decreases input.len() - pos, 3nat,
{
    lemma_read_builtin_ty_forward(input, pos);
    lemma_read_defined_ty_forward(input, pos);
}

proof fn lemma_read_builtin_ty_forward(input: Seq<u8>, pos: nat)
    requires
        pos <= input.len(),
    ensures
        read_builtin_ty(input, pos) matches Reading::Done(_, next) ==> pos < next <= input.len(),
    decreases input.len() - pos, 2nat,
{
    lemma_keyword_lens();
    lemma_read_angle_ty_forward(input, pos, "box".spec_bytes());
    lemma_read_angle_ty_forward(input, pos, "option".spec_bytes());
    lemma_read_list_ty_forward(input, pos);
    lemma_read_result_ty_forward(input, pos);
}

/// The keywords of the built-in types are as long as they are written.
pub proof fn lemma_keyword_lens()
    ensures
        "void".spec_bytes().len() == 4,
        "u8".spec_bytes().len() == 2,
        "u16".spec_bytes().len() == 3,
        "u32".spec_bytes().len() == 3,
        "u64".spec_bytes().len() == 3,
        "u128".spec_bytes().len() == 4,
        "i8".spec_bytes().len() == 2,
        "i16".spec_bytes().len() == 3,
        "i32".spec_bytes().len() == 3,
        "i64".spec_bytes().len() == 3,
        "i128".spec_bytes().len() == 4,
        "f32".spec_bytes().len() == 3,
        "f64".spec_bytes().len() == 3,
        "bool".spec_bytes().len() == 4,
        "string".spec_bytes().len() == 6,
        "box".spec_bytes().len() == 3,
        "option".spec_bytes().len() == 6,
        "result".spec_bytes().len() == 6,
        "struct".spec_bytes().len() == 6,
        "enum".spec_bytes().len() == 4,
{
    lemma_ascii_len("void");
    lemma_ascii_len("u8");
    lemma_ascii_len("u16");
    lemma_ascii_len("u32");
    lemma_ascii_len("u64");
    lemma_ascii_len("u128");
    lemma_ascii_len("i8");
    lemma_ascii_len("i16");
    lemma_ascii_len("i32");
    lemma_ascii_len("i64");
    lemma_ascii_len("i128");
    lemma_ascii_len("f32");
    lemma_ascii_len("f64");
    lemma_ascii_len("bool");
    lemma_ascii_len("string");
    lemma_ascii_len("box");
    lemma_ascii_len("option");
    lemma_ascii_len("result");
    lemma_ascii_len("struct");
    lemma_ascii_len("enum");
    reveal_strlit("void");
    reveal_strlit("u8");
    reveal_strlit("u16");
    reveal_strlit("u32");
    reveal_strlit("u64");
    reveal_strlit("u128");
    reveal_strlit("i8");
    reveal_strlit("i16");
    reveal_strlit("i32");
    reveal_strlit("i64");
    reveal_strlit("i128");
    reveal_strlit("f32");
    reveal_strlit("f64");
    reveal_strlit("bool");
    reveal_strlit("string");
    reveal_strlit("box");
    reveal_strlit("option");
    reveal_strlit("result");
    reveal_strlit("struct");
    reveal_strlit("enum");
}

/// A text of ASCII characters has one byte for each character.
pub proof fn lemma_ascii_len(text: &str)
    ensures
        vstd::string::is_ascii(text) ==> text.spec_bytes().len() == text@.len(),
{
    vstd::string::is_ascii_spec_bytes(text);
}

proof fn lemma_read_angle_ty_forward(input: Seq<u8>, pos: nat, tag: Seq<u8>)
    requires
        pos <= input.len(),
    ensures
        read_angle_ty(input, pos, tag) matches Reading::Done(_, next) ==> pos < next
            <= input.len(),
    decreases input.len() - pos, 1nat,
{
    if has_tag(input, pos, tag) {
        let open = skip_spaces(input, pos + tag.len());
        lemma_skip_spaces(input, pos + tag.len());
        if byte_at(input, open, 0x3c) {
            lemma_skip_spaces(input, open + 1);
            lemma_read_ty_forward(input, skip_spaces(input, open + 1));
            match read_ty(input, skip_spaces(input, open + 1)) {
                Reading::Done(_, next) => lemma_skip_spaces(input, next),
                _ => {},
            }
        }
    }
}

proof fn lemma_read_list_ty_forward(input: Seq<u8>, pos: nat)
    requires
        pos <= input.len(),
    ensures
        read_list_ty(input, pos) matches Reading::Done(_, next) ==> pos < next <= input.len(),
    decreases input.len() - pos, 1nat,
{
    if byte_at(input, pos, 0x5b) {
        lemma_skip_spaces(input, pos + 1);
        lemma_read_ty_forward(input, skip_spaces(input, pos + 1));
        match read_ty(input, skip_spaces(input, pos + 1)) {
            Reading::Done(_, next) => lemma_skip_spaces(input, next),
            _ => {},
        }
    }
}

proof fn lemma_read_result_ty_forward(input: Seq<u8>, pos: nat)
    requires
        pos <= input.len(),
    ensures
        read_result_ty(input, pos) matches Reading::Done(_, next) ==> pos < next <= input.len(),
    decreases input.len() - pos, 1nat,
{
    if has_tag(input, pos, "result".spec_bytes()) {
        let open = skip_spaces(input, pos + "result".spec_bytes().len());
        lemma_skip_spaces(input, pos + "result".spec_bytes().len());
        if byte_at(input, open, 0x3c) {
            match forward(input, pos, read_ty(input, open + 1)) {
                Reading::Done(_, next) => {
                    let comma = skip_spaces(input, next);
                    lemma_skip_spaces(input, next);
                    if byte_at(input, comma, 0x2c) {
                        lemma_skip_spaces(input, comma + 1);
                        lemma_read_ty_forward(input, skip_spaces(input, comma + 1));
                        match read_ty(input, skip_spaces(input, comma + 1)) {
                            Reading::Done(_, end) => {
                                lemma_skip_spaces(input, end);
                                lemma_skip_spaces(
                                    input,
                                    skip_comma(input, skip_spaces(input, end)),
                                );
                            },
                            _ => {},
                        }
                    }
                },
                _ => {},
            }
        }
    }
}

proof fn lemma_read_defined_ty_forward(input: Seq<u8>, pos: nat)
    requires
        pos <= input.len(),
    ensures
        read_defined_ty(input, pos) matches Reading::Done(_, next) ==> pos < next <= input.len(),
    decreases input.len() - pos, 2nat,
{
    lemma_read_qualified_identifier(input, pos);
    match read_qualified_identifier(input, pos) {
        Reading::Done(_, next) => {
            lemma_skip_spaces(input, next);
            lemma_read_type_args_list_forward(input, skip_spaces(input, next));
        },
        _ => {},
    }
}

proof fn lemma_read_type_args_list_forward(input: Seq<u8>, pos: nat)
    requires
        pos <= input.len(),
    ensures
        read_type_args_list(input, pos) matches Reading::Done(_, next) ==> pos < next
            <= input.len(),
    decreases input.len() - pos, 1nat,
{
    if byte_at(input, pos, 0x3c) {
        lemma_skip_spaces(input, pos + 1);
        match forward(input, pos, read_ty(input, skip_spaces(input, pos + 1))) {
            Reading::Done(first, next) => {
                lemma_read_more_types_forward(input, next, seq![first]);
                match read_more_types(input, next, seq![first]) {
                    Reading::Done(args, end) => lemma_read_list_close(input, end, args),
                    _ => {},
                }
            },
            Reading::Error => lemma_read_list_close(input, pos + 1, Seq::<TypeView>::empty()),
            _ => {},
        }
    }
}

/// A list that is closed ends behind where its close was looked for.
pub proof fn lemma_read_list_close<T>(input: Seq<u8>, pos: nat, items: Seq<T>)
    requires
        pos <= input.len(),
    ensures
        read_list_close(input, pos, items) matches Reading::Done(_, next) ==> pos < next
            <= input.len(),
        read_brace_close(input, pos, items) matches Reading::Done(_, next) ==> pos < next
            <= input.len(),
{
    lemma_skip_spaces(input, pos);
    lemma_skip_spaces(input, skip_comma(input, skip_spaces(input, pos)));
    lemma_skip_spaces(input, skip_comma(input, pos));
}

proof fn lemma_read_more_types_forward(input: Seq<u8>, pos: nat, items: Seq<TypeView>)
    requires
        pos <= input.len(),
    ensures
        read_more_types(input, pos, items) matches Reading::Done(_, next) ==> pos <= next
            <= input.len(),
    decreases input.len() - pos, 0nat,
{
    let comma = skip_spaces(input, pos);
    if byte_at(input, comma, 0x2c) {
        match forward(input, pos, read_ty(input, skip_spaces(input, comma + 1))) {
            Reading::Done(item, next) => lemma_read_more_types_forward(
                input,
                next,
                items.push(item),
            ),
            _ => {},
        }
    }
}

/// The names that follow `items` at `pos`, each behind a comma.
pub open spec fn read_more_params(input: Seq<u8>, pos: nat, items: Seq<Seq<char>>) -> Reading<
    Seq<Seq<char>>,
>
    decreases input.len() - pos,
{
    let comma = skip_spaces(input, pos);
    if !byte_at(input, comma, 0x2c) {
        Reading::Done(items, pos)
    } else {
        proof {
            lemma_skip_spaces(input, pos);
            lemma_skip_spaces(input, comma + 1);
            lemma_read_qualified_identifier(input, skip_spaces(input, comma + 1));
        }
        match read_identifier(input, skip_spaces(input, comma + 1)) {
            Reading::Done(item, next) => read_more_params(input, next, items.push(item)),
            _ => Reading::Done(items, pos),
        }
    }
}

/// `typeparams`: names in angle brackets, with commas between.
pub open spec fn read_type_params_list(input: Seq<u8>, pos: nat) -> Reading<Seq<Seq<char>>> {
    if !byte_at(input, pos, 0x3c) {
        Reading::Error
    } else {
        match read_identifier(input, skip_spaces(input, pos + 1)) {
            Reading::Done(first, next) => match read_more_params(input, next, seq![first]) {
                Reading::Done(params, end) => read_list_close(input, end, params),
                _ => Reading::Error,
            },
            _ => read_list_close(input, pos + 1, Seq::<Seq<char>>::empty()),
        }
    }
}

pub proof fn lemma_read_more_params_forward(input: Seq<u8>, pos: nat, items: Seq<Seq<char>>)
    requires
        pos <= input.len(),
    ensures
        read_more_params(input, pos, items) matches Reading::Done(_, next) ==> pos <= next
            <= input.len(),
    decreases input.len() - pos,
{
    let comma = skip_spaces(input, pos);
    if byte_at(input, comma, 0x2c) {
        lemma_skip_spaces(input, pos);
        lemma_skip_spaces(input, comma + 1);
        lemma_read_qualified_identifier(input, skip_spaces(input, comma + 1));
        match read_identifier(input, skip_spaces(input, comma + 1)) {
            Reading::Done(item, next) => lemma_read_more_params_forward(
                input,
                next,
                items.push(item),
            ),
            _ => {},
        }
    }
}

/// Type parameters end behind the opening bracket, and not beyond the
/// end.
pub proof fn lemma_read_type_params_list_forward(input: Seq<u8>, pos: nat)
    requires
        pos <= input.len(),
    ensures
        read_type_params_list(input, pos) matches Reading::Done(_, next) ==> pos < next
            <= input.len(),
{
    if byte_at(input, pos, 0x3c) {
        lemma_skip_spaces(input, pos + 1);
        lemma_read_qualified_identifier(input, skip_spaces(input, pos + 1));
        match read_identifier(input, skip_spaces(input, pos + 1)) {
            Reading::Done(first, next) => {
                lemma_read_more_params_forward(input, next, seq![first]);
                match read_more_params(input, next, seq![first]) {
                    Reading::Done(params, end) => lemma_read_list_close(input, end, params),
                    _ => {},
                }
            },
            _ => lemma_read_list_close(input, pos + 1, Seq::<Seq<char>>::empty()),
        }
    }
}

/// `field`: a name, a colon, a type. Once the name is read the colon must
/// follow.
pub open spec fn read_named_field(input: Seq<u8>, pos: nat) -> Reading<FieldView> {
    match read_identifier(input, pos) {
        Reading::Done(name, next) => {
            let colon = skip_spaces(input, next);
            if !byte_at(input, colon, 0x3a) {
                Reading::Failure
            } else {
                match read_ty(input, skip_spaces(input, colon + 1)) {
                    Reading::Done(ty, end) => Reading::Done(FieldView { name, ty }, end),
                    Reading::Error => Reading::Error,
                    Reading::Failure => Reading::Failure,
                }
            }
        },
        _ => Reading::Error,
    }
}

/// A field ends behind where it starts, and not beyond the end.
pub proof fn lemma_read_named_field_forward(input: Seq<u8>, pos: nat)
    requires
        pos <= input.len(),
    ensures
        read_named_field(input, pos) matches Reading::Done(_, next) ==> pos < next <= input.len(),
{
    lemma_read_qualified_identifier(input, pos);
    match read_identifier(input, pos) {
        Reading::Done(_, next) => {
            let colon = skip_spaces(input, next);
            lemma_skip_spaces(input, next);
            if byte_at(input, colon, 0x3a) {
                lemma_skip_spaces(input, colon + 1);
                lemma_read_ty_forward(input, skip_spaces(input, colon + 1));
            }
        },
        _ => {},
    }
}

/// The fields that follow `items` at `pos`, each behind a comma.
pub open spec fn read_more_fields(input: Seq<u8>, pos: nat, items: Seq<FieldView>) -> Reading<
    Seq<FieldView>,
>
    decreases input.len() - pos,
{
    let comma = skip_spaces(input, pos);
    if !byte_at(input, comma, 0x2c) {
        Reading::Done(items, pos)
    } else {
        proof {
            lemma_skip_spaces(input, pos);
            lemma_skip_spaces(input, comma + 1);
            lemma_read_named_field_forward(input, skip_spaces(input, comma + 1));
        }
        match read_named_field(input, skip_spaces(input, comma + 1)) {
            Reading::Done(item, next) => read_more_fields(input, next, items.push(item)),
            Reading::Error => Reading::Done(items, pos),
            Reading::Failure => Reading::Failure,
        }
    }
}

/// The end of a list in braces: a comma if one stands right here, then
/// the closing brace, with white space allowed before the brace. Nothing
/// else can follow.
pub open spec fn read_brace_close<T>(input: Seq<u8>, pos: nat, items: Seq<T>) -> Reading<Seq<T>> {
    let close = skip_spaces(input, skip_comma(input, pos));
    if byte_at(input, close, 0x7d) {
        Reading::Done(items, close + 1)
    } else {
        Reading::Failure
    }
}

/// `'{' fields '}'`. Once the brace is read, the list must be closed.
pub open spec fn read_named_fields(input: Seq<u8>, pos: nat) -> Reading<Seq<FieldView>> {
    if !byte_at(input, pos, 0x7b) {
        Reading::Error
    } else {
        match read_named_field(input, skip_spaces(input, pos + 1)) {
            Reading::Done(first, next) => match read_more_fields(input, next, seq![first]) {
                Reading::Done(fields, end) => read_brace_close(input, end, fields),
                _ => Reading::Failure,
            },
            Reading::Error => read_brace_close(input, pos + 1, Seq::<FieldView>::empty()),
            Reading::Failure => Reading::Failure,
        }
    }
}

/// `variant`: a name, and its fields in braces if they follow.
pub open spec fn read_enum_variant(input: Seq<u8>, pos: nat) -> Reading<(Seq<char>, VariantView)> {
    match read_identifier(input, pos) {
        Reading::Done(name, next) => match read_named_fields(input, skip_spaces(input, next)) {
            Reading::Done(fields, end) => Reading::Done(
                (name, VariantView::NamedFields(fields)),
                end,
            ),
            Reading::Error => Reading::Done((name, VariantView::Empty), next),
            Reading::Failure => Reading::Failure,
        },
        _ => Reading::Error,
    }
}

/// Fields in braces end behind the opening brace, and not beyond the end.
pub proof fn lemma_read_named_fields_forward(input: Seq<u8>, pos: nat)
    requires
        pos <= input.len(),
    ensures
        read_named_fields(input, pos) matches Reading::Done(_, next) ==> pos < next
            <= input.len(),
{
    if byte_at(input, pos, 0x7b) {
        lemma_skip_spaces(input, pos + 1);
        lemma_read_named_field_forward(input, skip_spaces(input, pos + 1));
        match read_named_field(input, skip_spaces(input, pos + 1)) {
            Reading::Done(first, next) => {
                lemma_read_more_fields_forward(input, next, seq![first]);
                match read_more_fields(input, next, seq![first]) {
                    Reading::Done(fields, end) => lemma_read_list_close(input, end, fields),
                    _ => {},
                }
            },
            Reading::Error => lemma_read_list_close(input, pos + 1, Seq::<FieldView>::empty()),
            _ => {},
        }
    }
}

pub proof fn lemma_read_more_fields_forward(input: Seq<u8>, pos: nat, items: Seq<FieldView>)
    requires
        pos <= input.len(),
    ensures
        read_more_fields(input, pos, items) matches Reading::Done(_, next) ==> pos <= next
            <= input.len(),
    decreases input.len() - pos,
{
    let comma = skip_spaces(input, pos);
    if byte_at(input, comma, 0x2c) {
        lemma_skip_spaces(input, pos);
        lemma_skip_spaces(input, comma + 1);
        lemma_read_named_field_forward(input, skip_spaces(input, comma + 1));
        match read_named_field(input, skip_spaces(input, comma + 1)) {
            Reading::Done(item, next) => lemma_read_more_fields_forward(
                input,
                next,
                items.push(item),
            ),
            _ => {},
        }
    }
}

/// A variant ends behind where it starts, and not beyond the end.
pub proof fn lemma_read_enum_variant_forward(input: Seq<u8>, pos: nat)
    requires
        pos <= input.len(),
    ensures
        read_enum_variant(input, pos) matches Reading::Done(_, next) ==> pos < next
            <= input.len(),
{
    lemma_read_qualified_identifier(input, pos);
    match read_identifier(input, pos) {
        Reading::Done(_, next) => {
            lemma_skip_spaces(input, next);
            lemma_read_named_fields_forward(input, skip_spaces(input, next));
        },
        _ => {},
    }
}

/// The variants that follow `items` at `pos`, each behind a comma.
pub open spec fn read_more_variants(
    input: Seq<u8>,
    pos: nat,
    items: Seq<(Seq<char>, VariantView)>,
) -> Reading<Seq<(Seq<char>, VariantView)>>
    decreases input.len() - pos,
{
    let comma = skip_spaces(input, pos);
    if !byte_at(input, comma, 0x2c) {
        Reading::Done(items, pos)
    } else {
        proof {
            lemma_skip_spaces(input, pos);
            lemma_skip_spaces(input, comma + 1);
            lemma_read_enum_variant_forward(input, skip_spaces(input, comma + 1));
        }
        match read_enum_variant(input, skip_spaces(input, comma + 1)) {
            Reading::Done(item, next) => read_more_variants(input, next, items.push(item)),
            Reading::Error => Reading::Done(items, pos),
            Reading::Failure => Reading::Failure,
        }
    }
}

/// `'{' variants '}'`. Once the brace is read, the list must be closed.
pub open spec fn read_enum_variants(input: Seq<u8>, pos: nat) -> Reading<
    Seq<(Seq<char>, VariantView)>,
> {
    if !byte_at(input, pos, 0x7b) {
        Reading::Error
    } else {
        match read_enum_variant(input, skip_spaces(input, pos + 1)) {
            Reading::Done(first, next) => match read_more_variants(input, next, seq![first]) {
                Reading::Done(variants, end) => read_brace_close(input, end, variants),
                _ => Reading::Failure,
            },
            Reading::Error => read_brace_close(
                input,
                pos + 1,
                Seq::<(Seq<char>, VariantView)>::empty(),
            ),
            Reading::Failure => Reading::Failure,
        }
    }
}

/// The name and the type parameters of a definition behind its keyword,
/// and the position of its body.
pub open spec fn read_def_head(input: Seq<u8>, pos: nat, keyword: Seq<u8>) -> Reading<
    (Seq<char>, Seq<Seq<char>>),
> {
    if !has_tag(input, pos, keyword) {
        Reading::Error
    } else {
        match read_identifier(input, skip_spaces(input, pos + keyword.len())) {
            Reading::Done(name, next) => match read_type_params_list(
                input,
                skip_spaces(input, next),
            ) {
                Reading::Done(params, end) => Reading::Done(
                    (name, params),
                    skip_spaces(input, end),
                ),
                _ => Reading::Done(
                    (name, Seq::empty()),
                    skip_spaces(input, skip_spaces(input, next)),
                ),
            },
            _ => Reading::Error,
        }
    }
}

/// `struct`: the keyword, a name, type parameters if any, the fields.
pub open spec fn read_struct_def(input: Seq<u8>, pos: nat) -> Reading<TypeDefView> {
    match read_def_head(input, pos, "struct".spec_bytes()) {
        Reading::Done(head, body) => match read_named_fields(input, body) {
            Reading::Done(fields, end) => Reading::Done(
                TypeDefView { name: head.0, params: head.1, body: BodyView::Struct(fields) },
                end,
            ),
            Reading::Error => Reading::Error,
            Reading::Failure => Reading::Failure,
        },
        _ => Reading::Error,
    }
}

/// `enum`: the keyword, a name, type parameters if any, the variants.
pub open spec fn read_enum_def(input: Seq<u8>, pos: nat) -> Reading<TypeDefView> {
    match read_def_head(input, pos, "enum".spec_bytes()) {
        Reading::Done(head, body) => match read_enum_variants(input, body) {
            Reading::Done(variants, end) => Reading::Done(
                TypeDefView { name: head.0, params: head.1, body: BodyView::Enum(variants) },
                end,
            ),
            Reading::Error => Reading::Error,
            Reading::Failure => Reading::Failure,
        },
        _ => Reading::Error,
    }
}

/// `typedef`: a struct, else an enum.
pub open spec fn read_type_def(input: Seq<u8>, pos: nat) -> Reading<TypeDefView> {
    match read_struct_def(input, pos) {
        Reading::Error => read_enum_def(input, pos),
        read => read,
    }
}

pub proof fn lemma_read_more_variants_forward(
    input: Seq<u8>,
    pos: nat,
    items: Seq<(Seq<char>, VariantView)>,
)
    requires
        pos <= input.len(),
    ensures
        read_more_variants(input, pos, items) matches Reading::Done(_, next) ==> pos <= next
            <= input.len(),
    decreases input.len() - pos,
{
    let comma = skip_spaces(input, pos);
    if byte_at(input, comma, 0x2c) {
        lemma_skip_spaces(input, pos);
        lemma_skip_spaces(input, comma + 1);
        lemma_read_enum_variant_forward(input, skip_spaces(input, comma + 1));
        match read_enum_variant(input, skip_spaces(input, comma + 1)) {
            Reading::Done(item, next) => lemma_read_more_variants_forward(
                input,
                next,
                items.push(item),
            ),
            _ => {},
        }
    }
}

/// Variants in braces end behind the opening brace, and not beyond the
/// end.
pub proof fn lemma_read_enum_variants_forward(input: Seq<u8>, pos: nat)
    requires
        pos <= input.len(),
    ensures
        read_enum_variants(input, pos) matches Reading::Done(_, next) ==> pos < next
            <= input.len(),
{
    if byte_at(input, pos, 0x7b) {
        lemma_skip_spaces(input, pos + 1);
        lemma_read_enum_variant_forward(input, skip_spaces(input, pos + 1));
        match read_enum_variant(input, skip_spaces(input, pos + 1)) {
            Reading::Done(first, next) => {
                lemma_read_more_variants_forward(input, next, seq![first]);
                match read_more_variants(input, next, seq![first]) {
                    Reading::Done(variants, end) => lemma_read_list_close(input, end, variants),
                    _ => {},
                }
            },
            Reading::Error => lemma_read_list_close(
                input,
                pos + 1,
                Seq::<(Seq<char>, VariantView)>::empty(),
            ),
            _ => {},
        }
    }
}

/// The head of a definition ends not beyond the end.
pub proof fn lemma_read_def_head_forward(input: Seq<u8>, pos: nat, keyword: Seq<u8>)
    requires
        pos <= input.len(),
    ensures
        read_def_head(input, pos, keyword) matches Reading::Done(_, next) ==> pos < next
            <= input.len(),
{
    if has_tag(input, pos, keyword) {
        lemma_skip_spaces(input, pos + keyword.len());
        let start = skip_spaces(input, pos + keyword.len());
        lemma_read_qualified_identifier(input, start);
        match read_identifier(input, start) {
            Reading::Done(_, next) => {
                lemma_skip_spaces(input, next);
                lemma_skip_spaces(input, skip_spaces(input, next));
                lemma_read_type_params_list_forward(input, skip_spaces(input, next));
                match read_type_params_list(input, skip_spaces(input, next)) {
                    Reading::Done(_, end) => lemma_skip_spaces(input, end),
                    _ => {},
                }
            },
            _ => {},
        }
    }
}

/// A definition ends behind where it starts, and not beyond the end.
pub proof fn lemma_read_type_def_forward(input: Seq<u8>, pos: nat)
    requires
        pos <= input.len(),
    ensures
        read_type_def(input, pos) matches Reading::Done(_, next) ==> pos < next <= input.len(),
{
    lemma_read_def_head_forward(input, pos, "struct".spec_bytes());
    lemma_read_def_head_forward(input, pos, "enum".spec_bytes());
    match read_def_head(input, pos, "struct".spec_bytes()) {
        Reading::Done(_, body) => lemma_read_named_fields_forward(input, body),
        _ => {},
    }
    match read_def_head(input, pos, "enum".spec_bytes()) {
        Reading::Done(_, body) => lemma_read_enum_variants_forward(input, body),
        _ => {},
    }
}

/// The definitions that follow `items` at `pos`, white space allowed
/// before each. The list ends where no definition follows.
pub open spec fn read_more_defs(input: Seq<u8>, pos: nat, items: Seq<TypeDefView>) -> Reading<
    Seq<TypeDefView>,
>
    decreases input.len() - pos,
{
    proof {
        lemma_skip_spaces(input, pos);
        if pos <= input.len() {
            lemma_read_type_def_forward(input, skip_spaces(input, pos));
        }
    }
    if pos > input.len() {
        Reading::Done(items, pos)
    } else {
        match read_type_def(input, skip_spaces(input, pos)) {
            Reading::Done(item, next) => read_more_defs(input, next, items.push(item)),
            Reading::Error => Reading::Done(items, pos),
            Reading::Failure => Reading::Failure,
        }
    }
}

/// `file`: definitions from the first byte on; what follows the last one
/// that reads is left unread.
pub open spec fn read_root(input: Seq<u8>) -> Reading<Seq<TypeDefView>> {
    match read_type_def(input, 0) {
        Reading::Done(first, next) => read_more_defs(input, next, seq![first]),
        Reading::Error => Reading::Done(Seq::empty(), 0),
        Reading::Failure => Reading::Failure,
    }
}

/// Whether what a parser returned is what the grammar reads, where
/// `view_of` says what a value stands for.
pub open spec fn agrees<T, V>(parsed: Parsed<T>, reading: Reading<V>, view_of: spec_fn(T) -> V) -> bool {
    match parsed {
        Parsed::Done(value, next) => reading == Reading::Done(view_of(value), next as nat),
        Parsed::Error => reading is Error,
        Parsed::Failure => reading is Failure,
    }
}

fn skip_ws(input: &[u8], pos: usize) -> (next: usize)
    requires
        pos <= input@.len(),
    ensures
        next == skip_spaces(input@, pos as nat),
        pos <= next <= input@.len(),
{
    proof {
        assert(input.len() == input@.len());
    }
    let mut i = pos;
    while i < input.len() && (input[i] == 0x20 || input[i] == 0x09 || input[i] == 0x0d || input[i]
        == 0x0a)
        invariant
            pos <= i <= input@.len(),
            skip_spaces(input@, pos as nat) == skip_spaces(input@, i as nat),
        decreases input@.len() - i,
    {
        i = i + 1;
    }
    i
}

fn ident_run(input: &[u8], pos: usize) -> (next: usize)
    requires
        pos <= input@.len(),
    ensures
        next == ident_end(input@, pos as nat),
        pos <= next <= input@.len(),
{
    proof {
        assert(input.len() == input@.len());
    }
    let mut i = pos;
    while i < input.len() && ((0x30 <= input[i] && input[i] <= 0x39) || (0x41 <= input[i]
        && input[i] <= 0x5a) || (0x61 <= input[i] && input[i] <= 0x7a) || input[i] == 0x5f)
        invariant
            pos <= i <= input@.len(),
            ident_end(input@, pos as nat) == ident_end(input@, i as nat),
        decreases input@.len() - i,
    {
        i = i + 1;
    }
    i
}

fn byte_is(input: &[u8], pos: usize, b: u8) -> (is: bool)
    ensures
        is == byte_at(input@, pos as nat, b),
{
    proof {
        assert(input.len() == input@.len());
    }
    pos < input.len() && input[pos] == b
}

fn tag(input: &[u8], pos: usize, text: &str) -> (matched: bool)
    requires
        pos <= input@.len(),
    ensures
        matched == has_tag(input@, pos as nat, text.spec_bytes()),
{
    proof {
        assert(input.len() == input@.len());
    }
    let tag = text.as_bytes();
    if tag.len() > input.len() - pos {
        return false;
    }
    let mut i: usize = 0;
    while i < tag.len()
        invariant
            i <= tag@.len(),
            tag@ == text.spec_bytes(),
            input@.len() <= usize::MAX,
            pos + tag@.len() <= input@.len(),
            forall|j: int| 0 <= j < i ==> input@[pos + j] == tag@[j],
        decreases tag@.len() - i,
    {
        if input[pos + i] != tag[i] {
            proof {
                assert(input@.subrange(pos as int, pos + tag@.len())[i as int] != tag@[i as int]);
            }
            return false;
        }
        i = i + 1;
    }
    proof {
        assert(input@.subrange(pos as int, pos + tag@.len()) =~= tag@);
    }
    true
}

/// The text of the bytes from `start` to `end`, each taken as a character.
fn text_of(input: &[u8], start: usize, end: usize) -> (text: String)
    requires
        start <= end <= input@.len(),
    ensures
        text@ == ascii_text(input@.subrange(start as int, end as int)),
{
    proof {
        assert(input.len() == input@.len());
    }
    let mut text = String::new();
    let mut i = start;
    while i < end
        invariant
            start <= i <= end <= input@.len(),
            text@ == ascii_text(input@.subrange(start as int, i as int)),
        decreases end - i,
    {
        push_char(&mut text, input[i] as char);
        proof {
            assert(text@ =~= ascii_text(input@.subrange(start as int, i + 1)));
        }
        i = i + 1;
    }
    text
}

fn identifier_at(input: &[u8], pos: usize) -> (result: Parsed<String>)
    requires
        pos <= input@.len(),
    ensures
        agrees(result, read_identifier(input@, pos as nat), |name: String| name@),
{
    proof {
        assert(input.len() == input@.len());
    }
    let end = ident_run(input, pos);
    if end == pos {
        Parsed::Error
    } else {
        Parsed::Done(text_of(input, pos, end), end)
    }
}

fn qualified_identifier_at(input: &[u8], pos: usize) -> (result: Parsed<QualifiedIdentifier>)
    requires
        pos <= input@.len(),
    ensures
        agrees(
            result,
            read_qualified_identifier(input@, pos as nat),
            |ident: QualifiedIdentifier| ident@,
        ),
{
    proof {
        assert(input.len() == input@.len());
    }
    proof {
        lemma_read_qualified_identifier(input@, pos as nat);
    }
    match identifier_at(input, pos) {
        Parsed::Done(first, next) => {
            if byte_is(input, next, 0x2e) {
                match identifier_at(input, next + 1) {
                    Parsed::Done(name, end) => Parsed::Done(
                        QualifiedIdentifier { name, module: Some(first) },
                        end,
                    ),
                    _ => Parsed::Error,
                }
            } else {
                Parsed::Done(QualifiedIdentifier { name: first, module: None }, next)
            }
        },
        _ => Parsed::Error,
    }
}

fn keyword_ty_at(input: &[u8], pos: usize) -> (result: Parsed<PrimitiveType>)
    requires
        pos <= input@.len(),
    ensures
        agrees(result, read_keyword_ty(input@, pos as nat), |ty: PrimitiveType| ty.view()),
        result matches Parsed::Done(_, next) ==> pos < next <= input@.len(),
        !(result is Failure),
{
    proof {
        assert(input.len() == input@.len());
    }
    proof {
        lemma_keyword_lens();
    }
    if tag(input, pos, "void") {
        Parsed::Done(PrimitiveType::Void, pos + 4)
    } else if tag(input, pos, "u8") {
        Parsed::Done(PrimitiveType::U8, pos + 2)
    } else if tag(input, pos, "u16") {
        Parsed::Done(PrimitiveType::U16, pos + 3)
    } else if tag(input, pos, "u32") {
        Parsed::Done(PrimitiveType::U32, pos + 3)
    } else if tag(input, pos, "u64") {
        Parsed::Done(PrimitiveType::U64, pos + 3)
    } else if tag(input, pos, "u128") {
        Parsed::Done(PrimitiveType::U128, pos + 4)
    } else if tag(input, pos, "i8") {
        Parsed::Done(PrimitiveType::I8, pos + 2)
    } else if tag(input, pos, "i16") {
        Parsed::Done(PrimitiveType::I16, pos + 3)
    } else if tag(input, pos, "i32") {
        Parsed::Done(PrimitiveType::I32, pos + 3)
    } else if tag(input, pos, "i64") {
        Parsed::Done(PrimitiveType::I64, pos + 3)
    } else if tag(input, pos, "i128") {
        Parsed::Done(PrimitiveType::I128, pos + 4)
    } else if tag(input, pos, "f32") {
        Parsed::Done(PrimitiveType::F32, pos + 3)
    } else if tag(input, pos, "f64") {
        Parsed::Done(PrimitiveType::F64, pos + 3)
    } else if tag(input, pos, "bool") {
        Parsed::Done(PrimitiveType::Bool, pos + 4)
    } else if tag(input, pos, "string") {
        Parsed::Done(PrimitiveType::String, pos + 6)
    } else {
        Parsed::Error
    }
}

fn ty_at(input: &[u8], pos: usize) -> (result: Parsed<Type>)
    requires
        pos <= input@.len(),
    ensures
        agrees(result, read_ty(input@, pos as nat), |ty: Type| ty.view()),
    decreases input@.len() - pos, 3nat,
{
    proof {
        assert(input.len() == input@.len());
    }
    match builtin_ty_at(input, pos) {
        Parsed::Done(primitive, next) => Parsed::Done(Type::Primitive(primitive), next),
        Parsed::Failure => Parsed::Failure,
        Parsed::Error => defined_ty_at(input, pos),
    }
}

fn builtin_ty_at(input: &[u8], pos: usize) -> (result: Parsed<PrimitiveType>)
    requires
        pos <= input@.len(),
    ensures
        agrees(result, read_builtin_ty(input@, pos as nat), |ty: PrimitiveType| ty.view()),
    decreases input@.len() - pos, 2nat,
{
    proof {
        assert(input.len() == input@.len());
    }
    match keyword_ty_at(input, pos) {
        Parsed::Done(primitive, next) => {
            return Parsed::Done(primitive, next);
        },
        _ => {},
    }
    match angle_ty_at(input, pos, "box") {
        Parsed::Done(inner, next) => {
            return Parsed::Done(PrimitiveType::Box(Box::new(inner)), next);
        },
        Parsed::Failure => {
            return Parsed::Failure;
        },
        Parsed::Error => {},
    }
    match list_ty_at(input, pos) {
        Parsed::Done(list, next) => {
            return Parsed::Done(list, next);
        },
        Parsed::Failure => {
            return Parsed::Failure;
        },
        Parsed::Error => {},
    }
    match angle_ty_at(input, pos, "option") {
        Parsed::Done(inner, next) => {
            return Parsed::Done(PrimitiveType::Option(Box::new(inner)), next);
        },
        Parsed::Failure => {
            return Parsed::Failure;
        },
        Parsed::Error => {},
    }
    result_ty_at(input, pos)
}

fn angle_ty_at(input: &[u8], pos: usize, keyword: &str) -> (result: Parsed<Type>)
    requires
        pos <= input@.len(),
    ensures
        agrees(
            result,
            read_angle_ty(input@, pos as nat, keyword.spec_bytes()),
            |ty: Type| ty.view(),
        ),
    decreases input@.len() - pos, 1nat,
{
    proof {
        assert(input.len() == input@.len());
    }
    if !tag(input, pos, keyword) {
        return Parsed::Error;
    }
    let open = skip_ws(input, pos + keyword.len());
    if !byte_is(input, open, 0x3c) {
        return Parsed::Error;
    }
    match ty_at(input, skip_ws(input, open + 1)) {
        Parsed::Done(inner, next) => {
            proof {
                lemma_read_ty_forward(input@, skip_spaces(input@, (open + 1) as nat));
            }
            let close = skip_ws(input, next);
            if byte_is(input, close, 0x3e) {
                Parsed::Done(inner, close + 1)
            } else {
                Parsed::Error
            }
        },
        Parsed::Error => Parsed::Error,
        Parsed::Failure => Parsed::Failure,
    }
}

fn list_ty_at(input: &[u8], pos: usize) -> (result: Parsed<PrimitiveType>)
    requires
        pos <= input@.len(),
    ensures
        agrees(result, read_list_ty(input@, pos as nat), |ty: PrimitiveType| ty.view()),
    decreases input@.len() - pos, 1nat,
{
    proof {
        assert(input.len() == input@.len());
    }
    if !byte_is(input, pos, 0x5b) {
        return Parsed::Error;
    }
    match ty_at(input, skip_ws(input, pos + 1)) {
        Parsed::Done(item, next) => {
            proof {
                lemma_read_ty_forward(input@, skip_spaces(input@, (pos + 1) as nat));
            }
            let close = skip_ws(input, next);
            if byte_is(input, close, 0x5d) {
                Parsed::Done(PrimitiveType::List(Box::new(item)), close + 1)
            } else {
                Parsed::Error
            }
        },
        Parsed::Error => Parsed::Error,
        Parsed::Failure => Parsed::Failure,
    }
}

fn skip_comma_at(input: &[u8], pos: usize) -> (next: usize)
    requires
        pos <= input@.len(),
    ensures
        next == skip_comma(input@, pos as nat),
        pos <= next <= input@.len(),
{
    proof {
        assert(input.len() == input@.len());
    }
    if byte_is(input, pos, 0x2c) {
        pos + 1
    } else {
        pos
    }
}

fn result_ty_at(input: &[u8], pos: usize) -> (result: Parsed<PrimitiveType>)
    requires
        pos <= input@.len(),
    ensures
        agrees(result, read_result_ty(input@, pos as nat), |ty: PrimitiveType| ty.view()),
    decreases input@.len() - pos, 1nat,
{
    proof {
        assert(input.len() == input@.len());
    }
    if !tag(input, pos, "result") {
        return Parsed::Error;
    }
    let open = skip_ws(input, pos + "result".len());
    if !byte_is(input, open, 0x3c) {
        return Parsed::Error;
    }
    match ty_at(input, open + 1) {
        Parsed::Done(ok, next) => {
            proof {
                lemma_read_ty_forward(input@, (open + 1) as nat);
            }
            let comma = skip_ws(input, next);
            if !byte_is(input, comma, 0x2c) {
                return Parsed::Error;
            }
            match ty_at(input, skip_ws(input, comma + 1)) {
                Parsed::Done(err, end) => {
                    proof {
                        lemma_read_ty_forward(input@, skip_spaces(input@, (comma + 1) as nat));
                    }
                    let close = skip_ws(input, skip_comma_at(input, skip_ws(input, end)));
                    if byte_is(input, close, 0x3e) {
                        Parsed::Done(PrimitiveType::Result(Box::new(ok), Box::new(err)), close + 1)
                    } else {
                        Parsed::Error
                    }
                },
                Parsed::Error => Parsed::Error,
                Parsed::Failure => Parsed::Failure,
            }
        },
        Parsed::Error => Parsed::Error,
        Parsed::Failure => Parsed::Failure,
    }
}

fn defined_ty_at(input: &[u8], pos: usize) -> (result: Parsed<Type>)
    requires
        pos <= input@.len(),
    ensures
        agrees(result, read_defined_ty(input@, pos as nat), |ty: Type| ty.view()),
    decreases input@.len() - pos, 2nat,
{
    proof {
        assert(input.len() == input@.len());
    }
    proof {
        lemma_read_qualified_identifier(input@, pos as nat);
    }
    match qualified_identifier_at(input, pos) {
        Parsed::Done(ident, next) => {
            let after = skip_ws(input, next);
            match type_args_list_at(input, after) {
                Parsed::Done(args, end) => {
                    let defined = Type::Defined { ident, args };
                    proof {
                        lemma_defined_view(defined);
                    }
                    Parsed::Done(defined, end)
                },
                Parsed::Error => {
                    let defined = Type::Defined { ident, args: Vec::new() };
                    proof {
                        lemma_defined_view(defined);
                        assert(type_views(defined->args@) =~= Seq::<TypeView>::empty());
                    }
                    Parsed::Done(defined, after)
                },
                Parsed::Failure => Parsed::Failure,
            }
        },
        _ => Parsed::Error,
    }
}

fn list_close_at<T>(input: &[u8], pos: usize) -> (next: Option<usize>)
    requires
        pos <= input@.len(),
    ensures
        match next {
            Some(next) => forall|items: Seq<T>|
                read_list_close(input@, pos as nat, items) == Reading::Done(items, next as nat),
            None => forall|items: Seq<T>| read_list_close(input@, pos as nat, items) is Error,
        },
        next matches Some(next) ==> pos < next <= input@.len(),
{
    proof {
        assert(input.len() == input@.len());
    }
    let close = skip_ws(input, skip_comma_at(input, skip_ws(input, pos)));
    if byte_is(input, close, 0x3e) {
        Some(close + 1)
    } else {
        None
    }
}

fn brace_close_at<T>(input: &[u8], pos: usize) -> (next: Option<usize>)
    requires
        pos <= input@.len(),
    ensures
        match next {
            Some(next) => forall|items: Seq<T>|
                read_brace_close(input@, pos as nat, items) == Reading::Done(items, next as nat),
            None => forall|items: Seq<T>| read_brace_close(input@, pos as nat, items) is Failure,
        },
        next matches Some(next) ==> pos < next <= input@.len(),
{
    proof {
        assert(input.len() == input@.len());
    }
    let close = skip_ws(input, skip_comma_at(input, pos));
    if byte_is(input, close, 0x7d) {
        Some(close + 1)
    } else {
        None
    }
}

fn type_args_list_at(input: &[u8], pos: usize) -> (result: Parsed<Vec<Type>>)
    requires
        pos <= input@.len(),
    ensures
        agrees(result, read_type_args_list(input@, pos as nat), |args: Vec<Type>| type_views(args@)),
    decreases input@.len() - pos, 1nat,
{
    proof {
        assert(input.len() == input@.len());
    }
    if !byte_is(input, pos, 0x3c) {
        return Parsed::Error;
    }
    let mut args: Vec<Type> = Vec::new();
    let mut end = pos + 1;
    match ty_at(input, skip_ws(input, pos + 1)) {
        Parsed::Done(first, next) => {
            proof {
                lemma_read_ty_forward(input@, skip_spaces(input@, (pos + 1) as nat));
            }
            args.push(first);
            proof {
                assert(type_views(args@) =~= seq![first.view()]);
            }
            match more_types_at(input, next, args) {
                Parsed::Done(all, after) => {
                    args = all;
                    end = after;
                },
                Parsed::Error => {
                    return Parsed::Error;
                },
                Parsed::Failure => {
                    return Parsed::Failure;
                },
            }
        },
        Parsed::Error => {
            proof {
                assert(type_views(args@) =~= Seq::<TypeView>::empty());
            }
        },
        Parsed::Failure => {
            return Parsed::Failure;
        },
    }
    match list_close_at::<TypeView>(input, end) {
        Some(next) => Parsed::Done(args, next),
        None => Parsed::Error,
    }
}

fn more_types_at(input: &[u8], pos: usize, items: Vec<Type>) -> (result: Parsed<Vec<Type>>)
    requires
        pos <= input@.len(),
    ensures
        agrees(
            result,
            read_more_types(input@, pos as nat, type_views(items@)),
            |args: Vec<Type>| type_views(args@),
        ),
        result matches Parsed::Done(_, next) ==> pos <= next <= input@.len(),
    decreases input@.len() - pos, 0nat,
{
    proof {
        assert(input.len() == input@.len());
    }
    let comma = skip_ws(input, pos);
    if !byte_is(input, comma, 0x2c) {
        return Parsed::Done(items, pos);
    }
    match ty_at(input, skip_ws(input, comma + 1)) {
        Parsed::Done(item, next) => {
            proof {
                lemma_read_ty_forward(input@, skip_spaces(input@, (comma + 1) as nat));
            }
            let ghost before = type_views(items@);
            let mut items = items;
            items.push(item);
            proof {
                assert(type_views(items@) =~= before.push(item.view()));
            }
            more_types_at(input, next, items)
        },
        Parsed::Error => Parsed::Done(items, pos),
        Parsed::Failure => Parsed::Failure,
    }
}

fn more_params_at(input: &[u8], pos: usize, items: Vec<String>) -> (result: Parsed<Vec<String>>)
    requires
        pos <= input@.len(),
    ensures
        agrees(
            result,
            read_more_params(input@, pos as nat, name_views(items@)),
            |params: Vec<String>| name_views(params@),
        ),
        result matches Parsed::Done(_, next) ==> pos <= next <= input@.len(),
        !(result is Failure),
    decreases input@.len() - pos,
{
    proof {
        assert(input.len() == input@.len());
    }
    let comma = skip_ws(input, pos);
    if !byte_is(input, comma, 0x2c) {
        return Parsed::Done(items, pos);
    }
    let start = skip_ws(input, comma + 1);
    proof {
        lemma_read_qualified_identifier(input@, start as nat);
    }
    match identifier_at(input, start) {
        Parsed::Done(item, next) => {
            let ghost before = name_views(items@);
            let mut items = items;
            items.push(item);
            proof {
                assert(name_views(items@) =~= before.push(item@));
            }
            more_params_at(input, next, items)
        },
        _ => Parsed::Done(items, pos),
    }
}

fn type_params_list_at(input: &[u8], pos: usize) -> (result: Parsed<Vec<String>>)
    requires
        pos <= input@.len(),
    ensures
        agrees(
            result,
            read_type_params_list(input@, pos as nat),
            |params: Vec<String>| name_views(params@),
        ),
        !(result is Failure),
{
    proof {
        assert(input.len() == input@.len());
    }
    if !byte_is(input, pos, 0x3c) {
        return Parsed::Error;
    }
    let mut params: Vec<String> = Vec::new();
    let mut end = pos + 1;
    let start = skip_ws(input, pos + 1);
    proof {
        lemma_read_qualified_identifier(input@, start as nat);
    }
    match identifier_at(input, start) {
        Parsed::Done(first, next) => {
            params.push(first);
            proof {
                assert(name_views(params@) =~= seq![first@]);
            }
            match more_params_at(input, next, params) {
                Parsed::Done(all, after) => {
                    params = all;
                    end = after;
                },
                _ => {
                    return Parsed::Error;
                },
            }
        },
        _ => {
            proof {
                assert(name_views(params@) =~= Seq::<Seq<char>>::empty());
            }
        },
    }
    match list_close_at::<Seq<char>>(input, end) {
        Some(next) => Parsed::Done(params, next),
        None => Parsed::Error,
    }
}

fn named_field_at(input: &[u8], pos: usize) -> (result: Parsed<NamedField>)
    requires
        pos <= input@.len(),
    ensures
        agrees(result, read_named_field(input@, pos as nat), |field: NamedField| field@),
{
    proof {
        assert(input.len() == input@.len());
    }
    proof {
        lemma_read_qualified_identifier(input@, pos as nat);
    }
    match identifier_at(input, pos) {
        Parsed::Done(name, next) => {
            let colon = skip_ws(input, next);
            if !byte_is(input, colon, 0x3a) {
                return Parsed::Failure;
            }
            match ty_at(input, skip_ws(input, colon + 1)) {
                Parsed::Done(ty, end) => Parsed::Done(NamedField { name, ty }, end),
                Parsed::Error => Parsed::Error,
                Parsed::Failure => Parsed::Failure,
            }
        },
        _ => Parsed::Error,
    }
}

fn more_fields_at(input: &[u8], pos: usize, items: Vec<NamedField>) -> (result: Parsed<
    Vec<NamedField>,
>)
    requires
        pos <= input@.len(),
    ensures
        agrees(
            result,
            read_more_fields(input@, pos as nat, field_views(items@)),
            |fields: Vec<NamedField>| field_views(fields@),
        ),
        result matches Parsed::Done(_, next) ==> pos <= next <= input@.len(),
    decreases input@.len() - pos,
{
    proof {
        assert(input.len() == input@.len());
    }
    let comma = skip_ws(input, pos);
    if !byte_is(input, comma, 0x2c) {
        return Parsed::Done(items, pos);
    }
    let start = skip_ws(input, comma + 1);
    proof {
        lemma_read_named_field_forward(input@, start as nat);
    }
    match named_field_at(input, start) {
        Parsed::Done(item, next) => {
            let ghost before = field_views(items@);
            let mut items = items;
            items.push(item);
            proof {
                assert(field_views(items@) =~= before.push(item@));
            }
            more_fields_at(input, next, items)
        },
        Parsed::Error => Parsed::Done(items, pos),
        Parsed::Failure => Parsed::Failure,
    }
}

fn named_fields_at(input: &[u8], pos: usize) -> (result: Parsed<Vec<NamedField>>)
    requires
        pos <= input@.len(),
    ensures
        agrees(
            result,
            read_named_fields(input@, pos as nat),
            |fields: Vec<NamedField>| field_views(fields@),
        ),
{
    proof {
        assert(input.len() == input@.len());
    }
    if !byte_is(input, pos, 0x7b) {
        return Parsed::Error;
    }
    let mut fields: Vec<NamedField> = Vec::new();
    let mut end = pos + 1;
    let start = skip_ws(input, pos + 1);
    proof {
        lemma_read_named_field_forward(input@, start as nat);
    }
    match named_field_at(input, start) {
        Parsed::Done(first, next) => {
            fields.push(first);
            proof {
                assert(field_views(fields@) =~= seq![first@]);
            }
            match more_fields_at(input, next, fields) {
                Parsed::Done(all, after) => {
                    fields = all;
                    end = after;
                },
                _ => {
                    return Parsed::Failure;
                },
            }
        },
        Parsed::Error => {
            proof {
                assert(field_views(fields@) =~= Seq::<FieldView>::empty());
            }
        },
        Parsed::Failure => {
            return Parsed::Failure;
        },
    }
    match brace_close_at::<FieldView>(input, end) {
        Some(next) => Parsed::Done(fields, next),
        None => Parsed::Failure,
    }
}

fn enum_variant_at(input: &[u8], pos: usize) -> (result: Parsed<(String, EnumVariant)>)
    requires
        pos <= input@.len(),
    ensures
        agrees(
            result,
            read_enum_variant(input@, pos as nat),
            |variant: (String, EnumVariant)| (variant.0@, variant.1@),
        ),
{
    proof {
        assert(input.len() == input@.len());
    }
    proof {
        lemma_read_qualified_identifier(input@, pos as nat);
    }
    match identifier_at(input, pos) {
        Parsed::Done(name, next) => {
            match named_fields_at(input, skip_ws(input, next)) {
                Parsed::Done(fields, end) => Parsed::Done(
                    (name, EnumVariant::NamedFields { fields }),
                    end,
                ),
                Parsed::Error => Parsed::Done((name, EnumVariant::Empty), next),
                Parsed::Failure => Parsed::Failure,
            }
        },
        _ => Parsed::Error,
    }
}

fn more_variants_at(input: &[u8], pos: usize, items: Vec<(String, EnumVariant)>) -> (result:
    Parsed<Vec<(String, EnumVariant)>>)
    requires
        pos <= input@.len(),
    ensures
        agrees(
            result,
            read_more_variants(input@, pos as nat, variant_views(items@)),
            |variants: Vec<(String, EnumVariant)>| variant_views(variants@),
        ),
        result matches Parsed::Done(_, next) ==> pos <= next <= input@.len(),
    decreases input@.len() - pos,
{
    proof {
        assert(input.len() == input@.len());
    }
    let comma = skip_ws(input, pos);
    if !byte_is(input, comma, 0x2c) {
        return Parsed::Done(items, pos);
    }
    let start = skip_ws(input, comma + 1);
    proof {
        lemma_read_enum_variant_forward(input@, start as nat);
    }
    match enum_variant_at(input, start) {
        Parsed::Done(item, next) => {
            let ghost before = variant_views(items@);
            let mut items = items;
            items.push(item);
            proof {
                assert(variant_views(items@) =~= before.push((item.0@, item.1@)));
            }
            more_variants_at(input, next, items)
        },
        Parsed::Error => Parsed::Done(items, pos),
        Parsed::Failure => Parsed::Failure,
    }
}

fn enum_variants_at(input: &[u8], pos: usize) -> (result: Parsed<Vec<(String, EnumVariant)>>)
    requires
        pos <= input@.len(),
    ensures
        agrees(
            result,
            read_enum_variants(input@, pos as nat),
            |variants: Vec<(String, EnumVariant)>| variant_views(variants@),
        ),
{
    proof {
        assert(input.len() == input@.len());
    }
    if !byte_is(input, pos, 0x7b) {
        return Parsed::Error;
    }
    let mut variants: Vec<(String, EnumVariant)> = Vec::new();
    let mut end = pos + 1;
    let start = skip_ws(input, pos + 1);
    proof {
        lemma_read_enum_variant_forward(input@, start as nat);
    }
    match enum_variant_at(input, start) {
        Parsed::Done(first, next) => {
            variants.push(first);
            proof {
                assert(variant_views(variants@) =~= seq![(first.0@, first.1@)]);
            }
            match more_variants_at(input, next, variants) {
                Parsed::Done(all, after) => {
                    variants = all;
                    end = after;
                },
                _ => {
                    return Parsed::Failure;
                },
            }
        },
        Parsed::Error => {
            proof {
                assert(variant_views(variants@) =~= Seq::<(Seq<char>, VariantView)>::empty());
            }
        },
        Parsed::Failure => {
            return Parsed::Failure;
        },
    }
    match brace_close_at::<(Seq<char>, VariantView)>(input, end) {
        Some(next) => Parsed::Done(variants, next),
        None => Parsed::Failure,
    }
}

fn def_head_at(input: &[u8], pos: usize, keyword: &str) -> (result: Parsed<(String, Vec<String>)>)
    requires
        pos <= input@.len(),
    ensures
        agrees(
            result,
            read_def_head(input@, pos as nat, keyword.spec_bytes()),
            |head: (String, Vec<String>)| (head.0@, name_views(head.1@)),
        ),
        result matches Parsed::Done(_, next) ==> pos < next <= input@.len(),
        !(result is Failure),
{
    proof {
        assert(input.len() == input@.len());
    }
    proof {
        lemma_read_def_head_forward(input@, pos as nat, keyword.spec_bytes());
    }
    if !tag(input, pos, keyword) {
        return Parsed::Error;
    }
    let start = skip_ws(input, pos + keyword.len());
    proof {
        lemma_read_qualified_identifier(input@, start as nat);
    }
    match identifier_at(input, start) {
        Parsed::Done(name, next) => {
            let after = skip_ws(input, next);
            proof {
                lemma_read_type_params_list_forward(input@, after as nat);
            }
            match type_params_list_at(input, after) {
                Parsed::Done(params, end) => Parsed::Done((name, params), skip_ws(input, end)),
                _ => {
                    let params: Vec<String> = Vec::new();
                    proof {
                        assert(name_views(params@) =~= Seq::<Seq<char>>::empty());
                    }
                    Parsed::Done((name, params), skip_ws(input, after))
                },
            }
        },
        _ => Parsed::Error,
    }
}

fn struct_def_at(input: &[u8], pos: usize) -> (result: Parsed<TypeDef>)
    requires
        pos <= input@.len(),
    ensures
        agrees(result, read_struct_def(input@, pos as nat), |def: TypeDef| def@),
{
    proof {
        assert(input.len() == input@.len());
    }
    match def_head_at(input, pos, "struct") {
        Parsed::Done(head, body) => {
            match named_fields_at(input, body) {
                Parsed::Done(fields, end) => {
                    let (name, params) = head;
                    Parsed::Done(
                        TypeDef { name, params, body: TypeBody::Struct(Struct { fields }) },
                        end,
                    )
                },
                Parsed::Error => Parsed::Error,
                Parsed::Failure => Parsed::Failure,
            }
        },
        _ => Parsed::Error,
    }
}

fn enum_def_at(input: &[u8], pos: usize) -> (result: Parsed<TypeDef>)
    requires
        pos <= input@.len(),
    ensures
        agrees(result, read_enum_def(input@, pos as nat), |def: TypeDef| def@),
{
    proof {
        assert(input.len() == input@.len());
    }
    match def_head_at(input, pos, "enum") {
        Parsed::Done(head, body) => {
            match enum_variants_at(input, body) {
                Parsed::Done(variants, end) => {
                    let (name, params) = head;
                    Parsed::Done(
                        TypeDef { name, params, body: TypeBody::Enum(Enum { variants }) },
                        end,
                    )
                },
                Parsed::Error => Parsed::Error,
                Parsed::Failure => Parsed::Failure,
            }
        },
        _ => Parsed::Error,
    }
}

fn type_def_at(input: &[u8], pos: usize) -> (result: Parsed<TypeDef>)
    requires
        pos <= input@.len(),
    ensures
        agrees(result, read_type_def(input@, pos as nat), |def: TypeDef| def@),
{
    proof {
        assert(input.len() == input@.len());
    }
    match struct_def_at(input, pos) {
        Parsed::Error => enum_def_at(input, pos),
        parsed => parsed,
    }
}

fn root_at(input: &[u8]) -> (result: Parsed<Vec<TypeDef>>)
    ensures
        agrees(result, read_root(input@), |defs: Vec<TypeDef>| type_def_views(defs@)),
{
    proof {
        assert(input.len() == input@.len());
    }
    let mut defs: Vec<TypeDef> = Vec::new();
    match type_def_at(input, 0) {
        Parsed::Done(first, next) => {
            proof {
                lemma_read_type_def_forward(input@, 0);
            }
            defs.push(first);
            proof {
                assert(type_def_views(defs@) =~= seq![first@]);
            }
            let mut pos = next;
            loop
                invariant
                    pos <= input@.len(),
                    input@.len() <= usize::MAX,
                    read_root(input@) == read_more_defs(
                        input@,
                        pos as nat,
                        type_def_views(defs@),
                    ),
                decreases input@.len() - pos,
            {
                let start = skip_ws(input, pos);
                proof {
                    lemma_read_type_def_forward(input@, start as nat);
                }
                match type_def_at(input, start) {
                    Parsed::Done(item, next) => {
                        let ghost before = type_def_views(defs@);
                        defs.push(item);
                        proof {
                            assert(type_def_views(defs@) =~= before.push(item@));
                        }
                        pos = next;
                    },
                    Parsed::Error => {
                        return Parsed::Done(defs, pos);
                    },
                    Parsed::Failure => {
                        return Parsed::Failure;
                    },
                }
            }
        },
        Parsed::Error => {
            proof {
                assert(type_def_views(defs@) =~= Seq::<TypeDefView>::empty());
            }
            Parsed::Done(defs, 0)
        },
        Parsed::Failure => Parsed::Failure,
    }
}

/// `box<T>`.
pub open spec fn read_box_ty(input: Seq<u8>, pos: nat) -> Reading<TypeView> {
    match read_angle_ty(input, pos, "box".spec_bytes()) {
        Reading::Done(inner, next) => Reading::Done(TypeView::Box(Box::new(inner)), next),
        read => read,
    }
}

/// `option<T>`.
pub open spec fn read_option_ty(input: Seq<u8>, pos: nat) -> Reading<TypeView> {
    match read_angle_ty(input, pos, "option".spec_bytes()) {
        Reading::Done(inner, next) => Reading::Done(TypeView::Option(Box::new(inner)), next),
        read => read,
    }
}

/// Reads a name at the start of `i`.
pub fn identifier(i: &str) -> (result: Parsed<String>)
    ensures
        agrees(result, read_identifier(i.spec_bytes(), 0), |name: String| name@),
{
    identifier_at(i.as_bytes(), 0)
}

/// Reads a name, with its module if it has one, at the start of `i`.
pub fn qualified_identifier(i: &str) -> (result: Parsed<QualifiedIdentifier>)
    ensures
        agrees(
            result,
            read_qualified_identifier(i.spec_bytes(), 0),
            |ident: QualifiedIdentifier| ident@,
        ),
{
    qualified_identifier_at(i.as_bytes(), 0)
}

/// Reads a built-in type at the start of `i`.
pub fn builtin_ty(i: &str) -> (result: Parsed<PrimitiveType>)
    ensures
        agrees(result, read_builtin_ty(i.spec_bytes(), 0), |ty: PrimitiveType| ty.view()),
{
    builtin_ty_at(i.as_bytes(), 0)
}

/// Reads `box<T>` at the start of `i`.
pub fn box_ty(i: &str) -> (result: Parsed<PrimitiveType>)
    ensures
        agrees(result, read_box_ty(i.spec_bytes(), 0), |ty: PrimitiveType| ty.view()),
{
    match angle_ty_at(i.as_bytes(), 0, "box") {
        Parsed::Done(inner, next) => Parsed::Done(PrimitiveType::Box(Box::new(inner)), next),
        Parsed::Error => Parsed::Error,
        Parsed::Failure => Parsed::Failure,
    }
}

/// Reads `[T]` at the start of `i`.
pub fn list_ty(i: &str) -> (result: Parsed<PrimitiveType>)
    ensures
        agrees(result, read_list_ty(i.spec_bytes(), 0), |ty: PrimitiveType| ty.view()),
{
    list_ty_at(i.as_bytes(), 0)
}

/// Reads `option<T>` at the start of `i`.
pub fn option_ty(i: &str) -> (result: Parsed<PrimitiveType>)
    ensures
        agrees(result, read_option_ty(i.spec_bytes(), 0), |ty: PrimitiveType| ty.view()),
{
    match angle_ty_at(i.as_bytes(), 0, "option") {
        Parsed::Done(inner, next) => Parsed::Done(PrimitiveType::Option(Box::new(inner)), next),
        Parsed::Error => Parsed::Error,
        Parsed::Failure => Parsed::Failure,
    }
}

/// Reads `result<O, E>` at the start of `i`.
pub fn result_ty(i: &str) -> (result: Parsed<PrimitiveType>)
    ensures
        agrees(result, read_result_ty(i.spec_bytes(), 0), |ty: PrimitiveType| ty.view()),
{
    result_ty_at(i.as_bytes(), 0)
}

/// Reads type parameters in angle brackets at the start of `i`.
pub fn type_params_list(i: &str) -> (result: Parsed<Vec<String>>)
    ensures
        agrees(
            result,
            read_type_params_list(i.spec_bytes(), 0),
            |params: Vec<String>| name_views(params@),
        ),
{
    type_params_list_at(i.as_bytes(), 0)
}

/// Reads type arguments in angle brackets at the start of `i`.
pub fn type_args_list(i: &str) -> (result: Parsed<Vec<Type>>)
    ensures
        agrees(
            result,
            read_type_args_list(i.spec_bytes(), 0),
            |args: Vec<Type>| type_views(args@),
        ),
{
    type_args_list_at(i.as_bytes(), 0)
}

/// Reads the definition of a struct at the start of `i`.
pub fn struct_def(i: &str) -> (result: Parsed<TypeDef>)
    ensures
        agrees(result, read_struct_def(i.spec_bytes(), 0), |def: TypeDef| def@),
{
    struct_def_at(i.as_bytes(), 0)
}

/// Reads the definition of an enum at the start of `i`.
pub fn enum_def(i: &str) -> (result: Parsed<TypeDef>)
    ensures
        agrees(result, read_enum_def(i.spec_bytes(), 0), |def: TypeDef| def@),
{
    enum_def_at(i.as_bytes(), 0)
}

/// Reads a reference to a definition at the start of `i`.
pub fn defined_ty(i: &str) -> (result: Parsed<Type>)
    ensures
        agrees(result, read_defined_ty(i.spec_bytes(), 0), |ty: Type| ty.view()),
{
    defined_ty_at(i.as_bytes(), 0)
}

/// Reads a type expression at the start of `i`.
pub fn ty(i: &str) -> (result: Parsed<Type>)
    ensures
        agrees(result, read_ty(i.spec_bytes(), 0), |ty: Type| ty.view()),
{
    ty_at(i.as_bytes(), 0)
}

/// Reads a definition at the start of `i`.
pub fn type_def(i: &str) -> (result: Parsed<TypeDef>)
    ensures
        agrees(result, read_type_def(i.spec_bytes(), 0), |def: TypeDef| def@),
{
    type_def_at(i.as_bytes(), 0)
}

/// Reads the definitions of a file from the start of `i` on.
pub fn root(i: &str) -> (result: Parsed<Vec<TypeDef>>)
    ensures
        agrees(result, read_root(i.spec_bytes()), |defs: Vec<TypeDef>| type_def_views(defs@)),
{
    root_at(i.as_bytes())
}

/// `input` from `pos` on without its comments, where `in_comment` says
/// that `pos` lies in one.
///
/// A comment runs from two slashes to the end of the line. A carriage
/// return right before a line feed is dropped. The text ends in a line
/// feed, which is added where the input does not end in one.
pub open spec fn stripped_from(input: Seq<u8>, pos: nat, in_comment: bool) -> Seq<u8>
    decreases input.len() - pos,
{
    if pos >= input.len() {
        if input.len() > 0 && input.last() == 0x0a {
            Seq::empty()
        } else {
            seq![0x0au8]
        }
    } else if input[pos as int] == 0x0a {
        seq![0x0au8] + stripped_from(input, pos + 1, false)
    } else if in_comment {
        stripped_from(input, pos + 1, true)
    } else if input[pos as int] == 0x2f && byte_at(input, pos + 1, 0x2f) {
        stripped_from(input, pos + 1, true)
    } else if input[pos as int] == 0x0d && byte_at(input, pos + 1, 0x0a) {
        stripped_from(input, pos + 1, false)
    } else {
        seq![input[pos as int]] + stripped_from(input, pos + 1, false)
    }
}

/// `input` without its comments.
pub open spec fn stripped(input: Seq<u8>) -> Seq<u8> {
    stripped_from(input, 0, false)
}

/// Removes the comments of a schema file.
pub fn strip_comments(input: &[u8]) -> (out: Vec<u8>)
    ensures
        out@ == stripped(input@),
{
    let n = input.len();
    let mut out: Vec<u8> = Vec::new();
    let mut in_comment = false;
    let mut i: usize = 0;
    proof {
        assert(out@ + stripped(input@) =~= stripped(input@));
    }
    while i < n
        invariant
            i <= n,
            n == input@.len(),
            out@ + stripped_from(input@, i as nat, in_comment) == stripped(input@),
        decreases n - i,
    {
        let ghost before = out@;
        let ghost here = stripped_from(input@, i as nat, in_comment);
        let b = input[i];
        if b == 0x0a {
            out.push(b);
            in_comment = false;
        } else if in_comment {
        } else if b == 0x2f && i + 1 < n && input[i + 1] == 0x2f {
            in_comment = true;
        } else if b == 0x0d && i + 1 < n && input[i + 1] == 0x0a {
        } else {
            out.push(b);
        }
        i = i + 1;
        proof {
            assert(out@ + stripped_from(input@, i as nat, in_comment) =~= before + here);
        }
    }
    if n == 0 || input[n - 1] != 0x0a {
        out.push(0x0a);
    }
    proof {
        assert(out@ =~= stripped(input@));
    }
    out
}

/// The one error of reading a schema: it breaks off where a definition
/// was begun.
#[derive(Debug)]
pub struct ParseError;

impl ParseError {
    /// The text that describes the error.
    pub fn message(&self) -> (text: &'static str)
        ensures
            text@ == "mproto schema parse error"@,
    {
        "mproto schema parse error"
    }
}

/// Reads the definitions of the schema `text`, comments removed. What
/// follows the last definition that reads is left unread.
pub fn parse_schema(text: &str) -> (result: Result<Vec<TypeDef>, ParseError>)
    ensures
        match result {
            Ok(defs) => read_root(stripped(text.spec_bytes())) matches Reading::Done(views, _)
                && views == type_def_views(defs@),
            Err(_) => !(read_root(stripped(text.spec_bytes())) is Done),
        },
{
    let schema = strip_comments(text.as_bytes());
    match root_at(schema.as_slice()) {
        Parsed::Done(defs, _) => Ok(defs),
        _ => Err(ParseError),
    }
}

} // verus!
