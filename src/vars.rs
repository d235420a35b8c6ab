//! `:const name expr` and `:var name expr`: evaluate an expression and bind
//! its value to a name in the session's environment.
use vstd::prelude::*;
use crate::eval::{Env, EvalError, Val, eval, eval_spec};
use crate::lex::{Token, tokens_view};
use crate::parser::{ParseError, Parser, parse_spec};

verus! {

#[derive(Clone, Copy, Debug, PartialEq, Eq, Structural)]
pub enum DefineError {
    /// No name was given.
    Usage,
    /// The name is not an identifier.
    NotAnIdentifier,
    Parse(ParseError),
    Eval(EvalError),
    /// The name is taken: by a constant, or, for a new constant, by a variable.
    AlreadyDefined,
}

fn rest_of(tokens: Vec<(Token, String)>) -> (r: (Vec<(Token, String)>, (Token, String)))
    requires
        tokens@.len() > 0,
    ensures
        r.1 == tokens@[0],
        r.0@ == tokens@.subrange(1, tokens@.len() as int),
{
    let mut rest = tokens;
    let first = rest.remove(0);
    (rest, first)
}

/// The outcome of defining the first token's name from the expression that
/// follows it: the value bound, or why nothing is bound. A constant's name
/// must be new; a variable's name must not be a constant's.
pub open spec fn define_spec(
    consts: Map<Seq<char>, Val>,
    vars: Map<Seq<char>, Val>,
    v: Seq<(Token, Seq<char>)>,
    as_const: bool,
) -> Result<Val, DefineError> {
    if v.len() == 0 {
        Err(DefineError::Usage)
    } else if v[0].0 != Token::Id {
        Err(DefineError::NotAnIdentifier)
    } else {
        match parse_spec(v.subrange(1, v.len() as int)) {
            Err(e) => Err(DefineError::Parse(e)),
            Ok((ex, _)) => match eval_spec(ex, consts, vars) {
                Err(e) => Err(DefineError::Eval(e)),
                Ok(val) => if consts.contains_key(v[0].1) || (as_const && vars.contains_key(
                    v[0].1,
                )) {
                    Err(DefineError::AlreadyDefined)
                } else {
                    Ok(val)
                },
            },
        }
    }
}

/// The environment after a definition with outcome `r` of the name `n`.
pub open spec fn defined(
    before: Env,
    after: Env,
    n: Seq<char>,
    as_const: bool,
    r: Result<Val, DefineError>,
) -> bool {
    match r {
        Ok(val) => if as_const {
            after.const_map() == before.const_map().insert(n, val) && after.var_map()
                == before.var_map()
        } else {
            after.var_map() == before.var_map().insert(n, val) && after.const_map()
                == before.const_map()
        },
        Err(_) => after.const_map() == before.const_map() && after.var_map() == before.var_map(),
    }
}

/// The name a definition binds: the first token's lexeme.
pub open spec fn defined_name(tokens: Seq<(Token, String)>) -> Seq<char> {
    if tokens.len() > 0 {
        tokens[0].1@
    } else {
        Seq::empty()
    }
}

/// A definition from `tokens` that returned `r` and left `after`: it succeeds
/// exactly when `define_spec` does, fails with its error, returns the name,
/// and binds the value.
pub open spec fn define_result(
    before: Env,
    after: Env,
    tokens: Seq<(Token, String)>,
    as_const: bool,
    r: Result<String, DefineError>,
) -> bool {
    let s = define_spec(before.const_map(), before.var_map(), tokens_view(tokens), as_const);
    &&& r is Ok <==> s is Ok
    &&& r matches Err(e) ==> s == Err::<Val, DefineError>(e)
    &&& r matches Ok(n) ==> n@ == defined_name(tokens)
    &&& defined(before, after, defined_name(tokens), as_const, s)
}

fn define(env: &mut Env, tokens: Vec<(Token, String)>, as_const: bool) -> (r: Result<
    String,
    DefineError,
>)
    ensures
        define_result(*old(env), *final(env), tokens@, as_const, r),
{
    let ghost v = tokens_view(tokens@);
    if tokens.len() == 0 {
        return Err(DefineError::Usage);
    }
    assert(v[0] == (tokens@[0].0, tokens@[0].1@));
    let (rest, first) = rest_of(tokens);
    let (kind, name) = first;
    if kind != Token::Id {
        return Err(DefineError::NotAnIdentifier);
    }
    assert(tokens_view(rest@) =~= v.subrange(1, v.len() as int));
    let mut parser = Parser::new(rest);
    let expr = match parser.parse() {
        Ok(e) => e,
        Err(e) => {
            return Err(DefineError::Parse(e));
        },
    };
    let value = match eval(&expr, env) {
        Ok(v) => v,
        Err(e) => {
            return Err(DefineError::Eval(e));
        },
    };
    let result = if as_const {
        env.set_const(name.clone(), value)
    } else {
        env.set_var(name.clone(), value)
    };
    match result {
        Ok(()) => Ok(name),
        Err(_) => Err(DefineError::AlreadyDefined),
    }
}

/// Defines a constant from `name expr` tokens; returns the name defined.
pub fn const_eval(env: &mut Env, tokens: Vec<(Token, String)>) -> (r: Result<String, DefineError>)
    ensures
        define_result(*old(env), *final(env), tokens@, true, r),
{
    define(env, tokens, true)
}

/// Sets a variable from `name expr` tokens; returns the name set.
pub fn var_eval(env: &mut Env, tokens: Vec<(Token, String)>) -> (r: Result<String, DefineError>)
    ensures
        define_result(*old(env), *final(env), tokens@, false, r),
{
    define(env, tokens, false)
}

} // verus!
