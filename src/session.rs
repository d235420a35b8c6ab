//! What one command line asks for: a directive (`:l`, `:d`, ...) or a call
//! `name literal*`, turned into a call plan ready for the engine.
use vstd::prelude::*;
use crate::call::{
    Argument, CallSignature, FfiType, MarshalError, OpMode, SignatureError, all_literals,
    build_signature, first_non_literal, inferred_tag, marshal, marshal_error, marshal_ok,
    return_tag,
    signature_tags,
};
use crate::lex::{Token, tokens_view};
use crate::text::chars_of;

verus! {

/// The directive of a command line.
#[derive(Clone, Copy, Debug, PartialEq, Eq, Structural)]
pub enum Directive {
    Empty,
    Redisplay,
    SetMode(OpMode),
    Load,
    Unload,
    List,
    DefineConst,
    DefineVar,
    Call,
    NotAFunction,
}

/// The directive of a command line from its tokens.
pub open spec fn directive_of(v: Seq<(Token, Seq<char>)>) -> Directive {
    if v.len() == 0 {
        Directive::Empty
    } else if v[0].0 == Token::Command {
        let w = v[0].1;
        if w == seq![':', 'r'] {
            Directive::Redisplay
        } else if w == seq![':', 'd'] {
            Directive::SetMode(OpMode::Int)
        } else if w == seq![':', 'f'] {
            Directive::SetMode(OpMode::Float)
        } else if w == seq![':', 'c'] {
            Directive::SetMode(OpMode::Char)
        } else if w == seq![':', 'v'] {
            Directive::SetMode(OpMode::Void)
        } else if w == seq![':', 's'] {
            Directive::SetMode(OpMode::Ptr)
        } else if w == seq![':', 'l'] {
            Directive::Load
        } else if w == seq![':', 'u', 'l'] {
            Directive::Unload
        } else if w == seq![':', 'l', 's'] {
            Directive::List
        } else if w == seq![':', 'c', 'o', 'n', 's', 't'] {
            Directive::DefineConst
        } else if w == seq![':', 'v', 'a', 'r'] {
            Directive::DefineVar
        } else {
            Directive::NotAFunction
        }
    } else if v[0].0 == Token::Id {
        Directive::Call
    } else {
        Directive::NotAFunction
    }
}

fn same_chars(s: &Vec<char>, lit: &Vec<char>) -> (r: bool)
    ensures
        r == (s@ == lit@),
{
    if s.len() != lit.len() {
        return false;
    }
    let mut k: usize = 0;
    while k < s.len()
        invariant
            k <= s.len() == lit.len(),
            forall|m: int| 0 <= m < k ==> s@[m] == lit@[m],
        decreases s.len() - k,
    {
        if s[k] != lit[k] {
            return false;
        }
        k = k + 1;
    }
    assert(s@ =~= lit@);
    true
}

/// Classifies a command line by its first token.
pub fn directive(tokens: &Vec<(Token, String)>) -> (r: Directive)
    ensures
        r == directive_of(tokens_view(tokens@)),
{
    if tokens.len() == 0 {
        return Directive::Empty;
    }
    let ghost v = tokens_view(tokens@);
    assert(v[0] == (tokens@[0].0, tokens@[0].1@));
    let t = tokens[0].0;
    if t == Token::Id {
        return Directive::Call;
    }
    if t != Token::Command {
        return Directive::NotAFunction;
    }
    let w = chars_of(tokens[0].1.as_str());
    if same_chars(&w, &vec![':', 'r']) {
        Directive::Redisplay
    } else if same_chars(&w, &vec![':', 'd']) {
        Directive::SetMode(OpMode::Int)
    } else if same_chars(&w, &vec![':', 'f']) {
        Directive::SetMode(OpMode::Float)
    } else if same_chars(&w, &vec![':', 'c']) {
        Directive::SetMode(OpMode::Char)
    } else if same_chars(&w, &vec![':', 'v']) {
        Directive::SetMode(OpMode::Void)
    } else if same_chars(&w, &vec![':', 's']) {
        Directive::SetMode(OpMode::Ptr)
    } else if same_chars(&w, &vec![':', 'l']) {
        Directive::Load
    } else if same_chars(&w, &vec![':', 'u', 'l']) {
        Directive::Unload
    } else if same_chars(&w, &vec![':', 'l', 's']) {
        Directive::List
    } else if same_chars(&w, &vec![':', 'c', 'o', 'n', 's', 't']) {
        Directive::DefineConst
    } else if same_chars(&w, &vec![':', 'v', 'a', 'r']) {
        Directive::DefineVar
    } else {
        Directive::NotAFunction
    }
}

/// The tokens after the first one.
pub fn trailing(tokens: &Vec<(Token, String)>) -> (r: Vec<(Token, String)>)
    ensures
        tokens@.len() == 0 ==> r@.len() == 0,
        tokens@.len() > 0 ==> tokens_view(r@) == tokens_view(tokens@).subrange(
            1,
            tokens@.len() as int,
        ),
{
    let mut out: Vec<(Token, String)> = Vec::new();
    let mut k: usize = 1;
    while k < tokens.len()
        invariant
            1 <= k,
            tokens@.len() > 0 ==> k <= tokens@.len(),
            tokens@.len() == 0 ==> out@.len() == 0,
            tokens@.len() > 0 ==> tokens_view(out@) == tokens_view(tokens@).subrange(1, k as int),
        decreases tokens.len() - k,
    {
        let ghost o = out@;
        let t = tokens[k].0;
        let s = tokens[k].1.clone();
        out.push((t, s));
        proof {
            assert(tokens_view(out@) =~= tokens_view(o).push((t, s@)));
            assert(tokens_view(tokens@)[k as int] == (t, s@));
            assert(tokens_view(tokens@).subrange(1, k + 1) =~= tokens_view(tokens@).subrange(
                1,
                k as int,
            ).push((t, s@)));
        }
        k = k + 1;
    }
    proof {
        if tokens@.len() > 0 {
            assert(k == tokens@.len());
        }
    }
    out
}

/// The lexemes of the tokens of kind `t` (`keep`) or of every other kind
/// (`!keep`), in order.
pub open spec fn lexemes_where(v: Seq<(Token, Seq<char>)>, t: Token, keep: bool) -> Seq<Seq<char>>
    decreases v.len(),
{
    if v.len() == 0 {
        Seq::empty()
    } else {
        let rest = lexemes_where(v.drop_last(), t, keep);
        if (v.last().0 == t) == keep {
            rest.push(v.last().1)
        } else {
            rest
        }
    }
}

/// The targets of a `:l` line: the file names among the arguments, and the
/// lexemes of the other tokens, which name no file.
pub fn load_targets(args: &Vec<(Token, String)>) -> (r: (Vec<String>, Vec<String>))
    ensures
        r.0@.map_values(|s: String| s@) == lexemes_where(tokens_view(args@), Token::FileName, true),
        r.1@.map_values(|s: String| s@) == lexemes_where(
            tokens_view(args@),
            Token::FileName,
            false,
        ),
{
    let ghost v = tokens_view(args@);
    let mut names: Vec<String> = Vec::new();
    let mut rejected: Vec<String> = Vec::new();
    let mut k: usize = 0;
    while k < args.len()
        invariant
            k <= args.len(),
            v == tokens_view(args@),
            names@.map_values(|s: String| s@) == lexemes_where(
                v.subrange(0, k as int),
                Token::FileName,
                true,
            ),
            rejected@.map_values(|s: String| s@) == lexemes_where(
                v.subrange(0, k as int),
                Token::FileName,
                false,
            ),
        decreases args.len() - k,
    {
        let ghost n0 = names@;
        let ghost r0 = rejected@;
        let text = args[k].1.clone();
        proof {
            assert(v.subrange(0, k + 1).drop_last() =~= v.subrange(0, k as int));
            assert(v.subrange(0, k + 1).last() == (args@[k as int].0, text@));
        }
        if args[k].0 == Token::FileName {
            names.push(text);
            assert(names@.map_values(|s: String| s@) =~= n0.map_values(|s: String| s@).push(
                text@,
            ));
        } else {
            rejected.push(text);
            assert(rejected@.map_values(|s: String| s@) =~= r0.map_values(|s: String| s@).push(
                text@,
            ));
        }
        k = k + 1;
    }
    assert(v.subrange(0, k as int) =~= v);
    (names, rejected)
}

/// A call ready for the engine: the symbol, its signature and its arguments.
pub struct CallPlan {
    pub symbol: String,
    pub signature: CallSignature,
    pub args: Vec<Argument>,
}

/// Why a command line makes no call.
#[derive(Clone, Copy, Debug, PartialEq, Eq, Structural)]
pub enum CallError {
    /// The line does not start with a function name.
    NotAFunction,
    /// An argument token has no native type.
    Signature(SignatureError),
    /// An argument literal could not be marshaled; `position` counts arguments.
    Marshal { position: usize, error: MarshalError },
}

/// The argument index of the first literal that cannot be marshaled.
pub open spec fn first_marshal_error(a: Seq<(Token, Seq<char>)>, k: int) -> bool {
    0 <= k < a.len() && marshal_error(a[k].0, a[k].1) is Some && forall|m: int|
        0 <= m < k ==> (#[trigger] marshal_error(a[m].0, a[m].1)) is None
}

pub open spec fn all_marshal(a: Seq<(Token, Seq<char>)>) -> bool {
    forall|m: int| 0 <= m < a.len() ==> (#[trigger] marshal_error(a[m].0, a[m].1)) is None
}

/// Marshals every argument literal in order, stopping at the first failure.
pub fn marshal_all(args: &Vec<(Token, String)>) -> (r: Result<Vec<Argument>, (usize, MarshalError)>)
    ensures
        r is Ok <==> all_marshal(tokens_view(args@)),
        r matches Ok(out) ==> out@.len() == args@.len() && forall|k: int|
            0 <= k < args@.len() ==> marshal_ok(args@[k].0, args@[k].1@, #[trigger] out@[k]),
        r matches Err(e) ==> first_marshal_error(tokens_view(args@), e.0 as int) && marshal_error(
            args@[e.0 as int].0,
            args@[e.0 as int].1@,
        ) == Some(e.1),
{
    let ghost v = tokens_view(args@);
    let mut out: Vec<Argument> = Vec::new();
    let mut k: usize = 0;
    while k < args.len()
        invariant
            k <= args.len(),
            v == tokens_view(args@),
            out@.len() == k,
            forall|m: int| 0 <= m < k ==> (#[trigger] marshal_error(v[m].0, v[m].1)) is None,
            forall|m: int| 0 <= m < k ==> marshal_ok(args@[m].0, args@[m].1@, #[trigger] out@[m]),
        decreases args.len() - k,
    {
        assert(v[k as int] == (args@[k as int].0, args@[k as int].1@));
        match marshal(args[k].0, args[k].1.as_str()) {
            Ok(a) => {
                out.push(a);
            },
            Err(e) => {
                assert(marshal_error(v[k as int].0, v[k as int].1) is Some);
                return Err((k, e));
            },
        }
        k = k + 1;
    }
    Ok(out)
}

/// Plans the call of a command line `name literal*` under an output mode.
pub fn plan_call(tokens: &Vec<(Token, String)>, mode: OpMode) -> (r: Result<CallPlan, CallError>)
    ensures
        (tokens@.len() == 0 || tokens@[0].0 != Token::Id) ==> r == Err::<CallPlan, CallError>(
            CallError::NotAFunction,
        ),
        tokens@.len() > 0 && tokens@[0].0 == Token::Id ==> ({
            let a = tokens_view(tokens@).subrange(1, tokens@.len() as int);
            &&& r is Ok <==> all_literals(a) && all_marshal(a)
            &&& r matches Ok(p) ==> {
                &&& p.symbol@ == tokens@[0].1@
                &&& p.signature.args@ == signature_tags(a)
                &&& p.signature.ret == return_tag(mode)
                &&& p.args@.len() == a.len()
                &&& forall|k: int|
                    0 <= k < a.len() ==> marshal_ok(a[k].0, a[k].1, #[trigger] p.args@[k])
            }
            &&& r matches Err(CallError::Signature(e)) ==> first_non_literal(a, e.position as int)
            &&& r matches Err(CallError::Marshal { position, error }) ==> all_literals(a)
                && first_marshal_error(a, position as int) && marshal_error(
                a[position as int].0,
                a[position as int].1,
            ) == Some(error)
            &&& !(r matches Err(CallError::NotAFunction))
        }),
{
    if tokens.len() == 0 || tokens[0].0 != Token::Id {
        return Err(CallError::NotAFunction);
    }
    let args = trailing(tokens);
    let signature = match build_signature(&args, mode) {
        Ok(s) => s,
        Err(e) => {
            return Err(CallError::Signature(e));
        },
    };
    match marshal_all(&args) {
        Ok(values) => {
            proof {
                let a = tokens_view(tokens@).subrange(1, tokens@.len() as int);
                assert forall|k: int| 0 <= k < a.len() implies marshal_ok(
                    a[k].0,
                    a[k].1,
                    #[trigger] values@[k],
                ) by {
                    assert(tokens_view(args@)[k] == (args@[k].0, args@[k].1@));
                }
            }
            Ok(CallPlan { symbol: tokens[0].1.clone(), signature, args: values })
        },
        Err((position, error)) => {
            proof {
                assert(tokens_view(args@)[position as int] == (
                    args@[position as int].0,
                    args@[position as int].1@,
                ));
            }
            Err(CallError::Marshal { position, error })
        },
    }
}

/// A call's signature has exactly one argument type per trailing literal,
/// each the type inferred from that literal's kind.
pub proof fn lemma_signature_per_literal(a: Seq<(Token, Seq<char>)>)
    requires
        all_literals(a),
    ensures
        signature_tags(a).len() == a.len(),
        forall|k: int|
            0 <= k < a.len() ==> inferred_tag(a[k].0) == Some(#[trigger] signature_tags(a)[k]),
{
    assert forall|k: int| 0 <= k < a.len() implies inferred_tag(a[k].0) == Some(
        #[trigger] signature_tags(a)[k],
    ) by {
        assert(inferred_tag(a[k].0) is Some);
    }
}

/// A call with no trailing literals is always planned, with an empty signature.
pub proof fn lemma_no_arguments(a: Seq<(Token, Seq<char>)>)
    requires
        a.len() == 0,
    ensures
        all_literals(a),
        all_marshal(a),
        signature_tags(a) == Seq::<FfiType>::empty(),
{
    assert(signature_tags(a) =~= Seq::<FfiType>::empty());
}

} // verus!
