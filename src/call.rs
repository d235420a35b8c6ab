//! Type inference, call signatures and argument marshaling for one command
//! line: `name literal*`.
use vstd::prelude::*;
use vstd::utf8::encode_utf8;
use crate::lex::{Token, tokens_view};
use crate::number::{fits_i64, int_literal_value, parse_int};
use crate::text::chars_of;

verus! {

/// Native argument and return types understood by the calling-convention engine.
#[derive(Clone, Copy, Debug, PartialEq, Eq, Structural)]
pub enum FfiType {
    Void,
    SInt8,
    SInt16,
    SInt32,
    SInt64,
    UInt8,
    UInt16,
    UInt32,
    UInt64,
    Float,
    Double,
    Pointer,
}

/// How the return value of a call is interpreted and displayed.
#[derive(Clone, Copy, Debug, PartialEq, Eq, Structural)]
pub enum OpMode {
    Float,
    Int,
    Ptr,
    Char,
    Void,
}

impl OpMode {
    /// The mode a session starts in.
    pub fn initial() -> (r: OpMode)
        ensures
            r == OpMode::Void,
    {
        OpMode::Void
    }
}

/// The return type that an output mode asks of the call.
pub open spec fn return_tag(m: OpMode) -> FfiType {
    match m {
        OpMode::Float => FfiType::Double,
        OpMode::Int => FfiType::SInt64,
        OpMode::Ptr => FfiType::Pointer,
        OpMode::Char => FfiType::SInt8,
        OpMode::Void => FfiType::Void,
    }
}

/// The argument type of a literal kind; `None` for a kind that is no literal.
pub open spec fn inferred_tag(t: Token) -> Option<FfiType> {
    match t {
        Token::CString => Some(FfiType::Pointer),
        Token::CInt => Some(FfiType::SInt64),
        Token::CFloat => Some(FfiType::Double),
        Token::CChar => Some(FfiType::SInt8),
        _ => None,
    }
}

pub fn return_type(m: OpMode) -> (r: FfiType)
    ensures
        r == return_tag(m),
{
    match m {
        OpMode::Float => FfiType::Double,
        OpMode::Int => FfiType::SInt64,
        OpMode::Ptr => FfiType::Pointer,
        OpMode::Char => FfiType::SInt8,
        OpMode::Void => FfiType::Void,
    }
}

pub fn infer_tag(t: Token) -> (r: Option<FfiType>)
    ensures
        r == inferred_tag(t),
{
    match t {
        Token::CString => Some(FfiType::Pointer),
        Token::CInt => Some(FfiType::SInt64),
        Token::CFloat => Some(FfiType::Double),
        Token::CChar => Some(FfiType::SInt8),
        _ => None,
    }
}

/// The ordered argument types of a call and its return type.
pub struct CallSignature {
    pub args: Vec<FfiType>,
    pub ret: FfiType,
}

/// Whether every argument token is a literal.
pub open spec fn all_literals(args: Seq<(Token, Seq<char>)>) -> bool {
    forall|k: int| 0 <= k < args.len() ==> (#[trigger] inferred_tag(args[k].0)) is Some
}

/// The index of the first argument token that is no literal.
pub open spec fn first_non_literal(args: Seq<(Token, Seq<char>)>, k: int) -> bool {
    0 <= k < args.len() && inferred_tag(args[k].0) is None && forall|m: int|
        0 <= m < k ==> (#[trigger] inferred_tag(args[m].0)) is Some
}

/// The argument types inferred from literal tokens, one per token.
pub open spec fn signature_tags(args: Seq<(Token, Seq<char>)>) -> Seq<FfiType> {
    args.map_values(|a: (Token, Seq<char>)| inferred_tag(a.0)->0)
}

/// An argument token that has no native type: the position among the
/// arguments and its kind.
#[derive(Clone, Copy, Debug, PartialEq, Eq, Structural)]
pub struct SignatureError {
    pub position: usize,
    pub kind: Token,
}

/// Builds the signature of a call from its argument tokens and the output mode.
pub fn build_signature(args: &Vec<(Token, String)>, mode: OpMode) -> (r: Result<
    CallSignature,
    SignatureError,
>)
    ensures
        r is Ok <==> all_literals(tokens_view(args@)),
        r matches Ok(sig) ==> sig.args@ == signature_tags(tokens_view(args@)) && sig.ret
            == return_tag(mode),
        r matches Err(e) ==> first_non_literal(tokens_view(args@), e.position as int) && e.kind
            == args@[e.position as int].0,
{
    let ghost v = tokens_view(args@);
    let mut tags: Vec<FfiType> = Vec::new();
    let mut k: usize = 0;
    while k < args.len()
        invariant
            k <= args.len(),
            v == tokens_view(args@),
            forall|m: int| 0 <= m < k ==> (#[trigger] inferred_tag(v[m].0)) is Some,
            tags@ == signature_tags(v).subrange(0, k as int),
        decreases args.len() - k,
    {
        match infer_tag(args[k].0) {
            Some(t) => {
                tags.push(t);
                assert(tags@ =~= signature_tags(v).subrange(0, k + 1));
            },
            None => {
                assert(v[k as int].0 == args@[k as int].0);
                assert(inferred_tag(v[k as int].0) is None);
                return Err(SignatureError { position: k, kind: args[k].0 });
            },
        }
        k = k + 1;
    }
    assert(signature_tags(v).subrange(0, k as int) =~= signature_tags(v));
    Ok(CallSignature { args: tags, ret: return_type(mode) })
}

/// An argument in call-ready form: numbers at their width; a float keeps its
/// literal text, which the caller converts; a string is a NUL-terminated
/// byte buffer.
pub enum Argument {
    SInt8(i8),
    SInt64(i64),
    Double(String),
    Pointer(Vec<u8>),
}

/// Why a literal could not be put into its argument storage.
#[derive(Clone, Copy, Debug, PartialEq, Eq, Structural)]
pub enum MarshalError {
    /// An integer literal that is malformed or does not fit in 64 bits.
    IntOutOfRange,
    /// A character literal whose encoding is more than one byte.
    CharOutOfRange,
    /// A string literal holding a NUL character.
    EmbeddedNul,
    /// A token that is no literal.
    NotALiteral,
}

/// What marshaling a literal of kind `t` with lexeme `w` yields.
pub open spec fn marshal_ok(t: Token, w: Seq<char>, a: Argument) -> bool {
    match t {
        Token::CInt => a matches Argument::SInt64(x) && int_literal_value(w) == Some(x as int),
        Token::CChar => a matches Argument::SInt8(x) && x as int == encode_utf8(w)[0] as int,
        Token::CFloat => a matches Argument::Double(x) && x@ == w,
        Token::CString => a matches Argument::Pointer(b) && b@ == encode_utf8(w).push(0u8),
        _ => false,
    }
}

/// The error that marshaling a literal of kind `t` with lexeme `w` meets, if any.
pub open spec fn marshal_error(t: Token, w: Seq<char>) -> Option<MarshalError> {
    match t {
        Token::CInt => if int_literal_value(w) matches Some(v) && fits_i64(v) {
            None
        } else {
            Some(MarshalError::IntOutOfRange)
        },
        Token::CChar => if w.len() == 1 && encode_utf8(w).len() > 0 && encode_utf8(w)[0] < 128 {
            None
        } else {
            Some(MarshalError::CharOutOfRange)
        },
        Token::CFloat => None,
        Token::CString => if w.contains('\0') {
            Some(MarshalError::EmbeddedNul)
        } else {
            None
        },
        _ => Some(MarshalError::NotALiteral),
    }
}

fn has_nul(text: &str) -> (r: bool)
    ensures
        r == text@.contains('\0'),
{
    let s = chars_of(text);
    let mut k: usize = 0;
    while k < s.len()
        invariant
            k <= s.len(),
            s@ == text@,
            forall|m: int| 0 <= m < k ==> s@[m] != '\0',
        decreases s.len() - k,
    {
        if s[k] == '\0' {
            assert(text@[k as int] == '\0');
            return true;
        }
        k = k + 1;
    }
    false
}

fn nul_terminated(text: &str) -> (r: Vec<u8>)
    ensures
        r@ == encode_utf8(text@).push(0u8),
{
    let b = text.as_bytes();
    let mut out: Vec<u8> = Vec::new();
    let mut k: usize = 0;
    while k < b.len()
        invariant
            k <= b@.len(),
            b@ == encode_utf8(text@),
            out@ == b@.subrange(0, k as int),
        decreases b.len() - k,
    {
        out.push(b[k]);
        k = k + 1;
    }
    assert(b@.subrange(0, k as int) =~= b@);
    out.push(0u8);
    out
}

/// Puts one literal into its call-ready storage.
pub fn marshal(t: Token, text: &str) -> (r: Result<Argument, MarshalError>)
    ensures
        r is Ok <==> marshal_error(t, text@) is None,
        r matches Ok(a) ==> marshal_ok(t, text@, a),
        r matches Err(e) ==> marshal_error(t, text@) == Some(e),
{
    match t {
        Token::CInt => match parse_int(text) {
            Some(v) => Ok(Argument::SInt64(v)),
            None => Err(MarshalError::IntOutOfRange),
        },
        Token::CChar => {
            let s = chars_of(text);
            let b = text.as_bytes();
            if s.len() == 1 && b.len() > 0 && b[0] < 128 {
                Ok(Argument::SInt8(b[0] as i8))
            } else {
                Err(MarshalError::CharOutOfRange)
            }
        },
        Token::CFloat => Ok(Argument::Double(text.to_owned())),
        Token::CString => {
            if has_nul(text) {
                Err(MarshalError::EmbeddedNul)
            } else {
                Ok(Argument::Pointer(nul_terminated(text)))
            }
        },
        _ => Err(MarshalError::NotALiteral),
    }
}

} // verus!
