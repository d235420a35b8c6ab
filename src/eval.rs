//! Values, the environment of constants and variables, and the evaluation
//! of parsed expressions. Integer arithmetic is checked.
use vstd::prelude::*;
use crate::parser::{BinaryOp, Expr, ExprView, UnaryOp};
use crate::text::{chars_of, string_of};

verus! {

pub enum Value {
    CString(String),
    CChar(char),
    Integer(i64),
    Bool(bool),
}

/// The mathematical value of a `Value`.
pub enum Val {
    Str(Seq<char>),
    Chr(char),
    Int(int),
    Bool(bool),
}

impl Value {
    pub open spec fn view(&self) -> Val {
        match self {
            Value::CString(s) => Val::Str(s@),
            Value::CChar(c) => Val::Chr(*c),
            Value::Integer(i) => Val::Int(*i as int),
            Value::Bool(b) => Val::Bool(*b),
        }
    }

    pub fn copy(&self) -> (r: Value)
        ensures
            r@ == self@,
    {
        match self {
            Value::CString(s) => Value::CString(s.clone()),
            Value::CChar(c) => Value::CChar(*c),
            Value::Integer(i) => Value::Integer(*i),
            Value::Bool(b) => Value::Bool(*b),
        }
    }
}

#[derive(Clone, Copy, Debug, PartialEq, Eq, Structural)]
pub enum EvalError {
    UndefinedVariable,
    TypeMismatch,
    Overflow,
    DivisionByZero,
    /// Dividing integers gives a floating-point value, which this evaluator has not.
    FloatUnsupported,
    /// Repeating a string a negative number of times.
    NegativeRepeat,
    /// Defining a name that is already a constant (or, for a constant, a variable).
    AlreadyDefined,
}

pub open spec fn fits(v: int) -> bool {
    i64::MIN <= v <= i64::MAX
}

pub open spec fn int_result(v: int) -> Result<Val, EvalError> {
    if fits(v) {
        Ok(Val::Int(v))
    } else {
        Err(EvalError::Overflow)
    }
}

/// `s` repeated `n` times.
pub open spec fn repeat(s: Seq<char>, n: nat) -> Seq<char>
    decreases n,
{
    if n == 0 {
        Seq::empty()
    } else {
        repeat(s, (n - 1) as nat) + s
    }
}

pub open spec fn unary_spec(op: UnaryOp, v: Val) -> Result<Val, EvalError> {
    match (op, v) {
        (UnaryOp::Neg, Val::Int(i)) => int_result(-i),
        (UnaryOp::Not, Val::Bool(b)) => Ok(Val::Bool(!b)),
        (UnaryOp::Not, Val::Int(i)) => Ok(Val::Bool(i == 0)),
        _ => Err(EvalError::TypeMismatch),
    }
}

/// Equality of two values of the same kind; values of different kinds are unequal.
pub open spec fn same_value(a: Val, b: Val) -> bool {
    match (a, b) {
        (Val::Int(x), Val::Int(y)) => x == y,
        (Val::Bool(x), Val::Bool(y)) => x == y,
        (Val::Str(x), Val::Str(y)) => x == y,
        (Val::Chr(x), Val::Chr(y)) => x == y,
        _ => false,
    }
}

pub open spec fn binary_spec(op: BinaryOp, a: Val, b: Val) -> Result<Val, EvalError> {
    match op {
        BinaryOp::Add => match (a, b) {
            (Val::Int(x), Val::Int(y)) => int_result(x + y),
            (Val::Str(x), Val::Str(y)) => Ok(Val::Str(x + y)),
            (Val::Str(x), Val::Chr(y)) => Ok(Val::Str(x.push(y))),
            (Val::Chr(x), Val::Str(y)) => Ok(Val::Str(seq![x] + y)),
            (Val::Chr(x), Val::Chr(y)) => Ok(Val::Str(seq![x, y])),
            _ => Err(EvalError::TypeMismatch),
        },
        BinaryOp::Sub => match (a, b) {
            (Val::Int(x), Val::Int(y)) => int_result(x - y),
            _ => Err(EvalError::TypeMismatch),
        },
        BinaryOp::Mul => match (a, b) {
            (Val::Int(x), Val::Int(y)) => int_result(x * y),
            (Val::Str(x), Val::Int(n)) => if n < 0 {
                Err(EvalError::NegativeRepeat)
            } else {
                Ok(Val::Str(repeat(x, n as nat)))
            },
            (Val::Chr(x), Val::Int(n)) => if n < 0 {
                Err(EvalError::NegativeRepeat)
            } else {
                Ok(Val::Str(repeat(seq![x], n as nat)))
            },
            _ => Err(EvalError::TypeMismatch),
        },
        BinaryOp::Div => match (a, b) {
            (Val::Int(x), Val::Int(y)) => if y == 0 {
                Err(EvalError::DivisionByZero)
            } else {
                Err(EvalError::FloatUnsupported)
            },
            _ => Err(EvalError::TypeMismatch),
        },
        BinaryOp::Eq => Ok(Val::Bool(same_value(a, b))),
        BinaryOp::Ne => Ok(Val::Bool(!same_value(a, b))),
        BinaryOp::Lt | BinaryOp::Le | BinaryOp::Gt | BinaryOp::Ge => match (a, b) {
            (Val::Int(x), Val::Int(y)) => Ok(
                Val::Bool(
                    match op {
                        BinaryOp::Lt => x < y,
                        BinaryOp::Le => x <= y,
                        BinaryOp::Gt => x > y,
                        _ => x >= y,
                    },
                ),
            ),
            _ => Err(EvalError::TypeMismatch),
        },
    }
}

/// Constants and variables, each a list of unique names with values.
pub struct Env {
    pub vars: Vec<(String, Value)>,
    pub consts: Vec<(String, Value)>,
}

pub open spec fn bindings(v: Seq<(String, Value)>) -> Map<Seq<char>, Val>
    decreases v.len(),
{
    if v.len() == 0 {
        Map::empty()
    } else {
        bindings(v.drop_last()).insert(v.last().0@, v.last().1@)
    }
}

/// The value of a name: a constant first, else a variable.
pub open spec fn lookup(consts: Map<Seq<char>, Val>, vars: Map<Seq<char>, Val>, n: Seq<char>) -> Option<
    Val,
> {
    if consts.contains_key(n) {
        Some(consts[n])
    } else if vars.contains_key(n) {
        Some(vars[n])
    } else {
        None
    }
}

/// The value of an expression under the given constants and variables.
pub open spec fn eval_spec(e: ExprView, consts: Map<Seq<char>, Val>, vars: Map<Seq<char>, Val>) -> Result<
    Val,
    EvalError,
>
    decreases e,
{
    match e {
        ExprView::Integer(i) => Ok(Val::Int(i)),
        ExprView::Str(s) => Ok(Val::Str(s)),
        ExprView::Chr(c) => Ok(Val::Chr(c)),
        ExprView::Var(n) => match lookup(consts, vars, n) {
            Some(v) => Ok(v),
            None => Err(EvalError::UndefinedVariable),
        },
        ExprView::Unary(op, x) => match eval_spec(*x, consts, vars) {
            Ok(v) => unary_spec(op, v),
            Err(err) => Err(err),
        },
        ExprView::Binary(l, op, r) => match eval_spec(*l, consts, vars) {
            Err(err) => Err(err),
            Ok(a) => match eval_spec(*r, consts, vars) {
                Err(err) => Err(err),
                Ok(b) => binary_spec(op, a, b),
            },
        },
    }
}

pub open spec fn view_result(r: Result<Value, EvalError>) -> Result<Val, EvalError> {
    match r {
        Ok(v) => Ok(v@),
        Err(e) => Err(e),
    }
}

fn find(v: &Vec<(String, Value)>, name: &str) -> (r: Option<usize>)
    ensures
        r matches Some(k) ==> k < v@.len() && v@[k as int].0@ == name@ && forall|m: int|
            k < m < v@.len() ==> v@[m].0@ != name@,
        r is None ==> forall|m: int| 0 <= m < v@.len() ==> v@[m].0@ != name@,
{
    let key = name.to_owned();
    let mut k: usize = v.len();
    while k > 0
        invariant
            k <= v@.len(),
            key@ == name@,
            forall|m: int| k <= m < v@.len() ==> v@[m].0@ != name@,
        decreases k,
    {
        if v[k - 1].0 == key {
            return Some(k - 1);
        }
        k = k - 1;
    }
    None
}

proof fn lemma_bindings_last(v: Seq<(String, Value)>, n: Seq<char>)
    ensures
        bindings(v).contains_key(n) <==> exists|m: int| 0 <= m < v.len() && v[m].0@ == n,
        forall|k: int|
            0 <= k < v.len() && v[k].0@ == n && (forall|m: int| k < m < v.len() ==> v[m].0@ != n)
                ==> bindings(v)[n] == v[k].1@,
    decreases v.len(),
{
    if v.len() > 0 {
        let u = v.drop_last();
        lemma_bindings_last(u, n);
        assert forall|m: int| 0 <= m < u.len() implies u[m] == v[m] by {}
        if exists|m: int| 0 <= m < u.len() && u[m].0@ == n {
            let m = choose|m: int| 0 <= m < u.len() && u[m].0@ == n;
            assert(v[m].0@ == n);
        }
    }
}

impl Env {
    /// The constants by name.
    pub open spec fn const_map(&self) -> Map<Seq<char>, Val> {
        bindings(self.consts@)
    }

    /// The variables by name.
    pub open spec fn var_map(&self) -> Map<Seq<char>, Val> {
        bindings(self.vars@)
    }

    pub fn new() -> (r: Self)
        ensures
            r.const_map() == Map::<Seq<char>, Val>::empty(),
            r.var_map() == Map::<Seq<char>, Val>::empty(),
    {
        Self { vars: Vec::new(), consts: Vec::new() }
    }

    /// The value of a name, a constant before a variable.
    pub fn get(&self, name: &str) -> (r: Option<Value>)
        ensures
            r is Some <==> lookup(self.const_map(), self.var_map(), name@) is Some,
            r matches Some(v) ==> lookup(self.const_map(), self.var_map(), name@) == Some(v@),
    {
        proof {
            lemma_bindings_last(self.consts@, name@);
            lemma_bindings_last(self.vars@, name@);
        }
        match find(&self.consts, name) {
            Some(k) => Some(self.consts[k].1.copy()),
            None => match find(&self.vars, name) {
                Some(k) => Some(self.vars[k].1.copy()),
                None => None,
            },
        }
    }

    /// Sets a variable; a constant of that name cannot be reassigned.
    pub fn set_var(&mut self, name: String, value: Value) -> (r: Result<(), EvalError>)
        ensures
            r is Err <==> old(self).const_map().contains_key(name@),
            r is Err ==> r == Err::<(), EvalError>(EvalError::AlreadyDefined) && final(self).const_map()
                == old(self).const_map() && final(self).var_map() == old(self).var_map(),
            r is Ok ==> final(self).const_map() == old(self).const_map() && final(self).var_map()
                == old(self).var_map().insert(name@, value@),
    {
        proof {
            lemma_bindings_last(self.consts@, name@);
        }
        if find(&self.consts, name.as_str()).is_some() {
            return Err(EvalError::AlreadyDefined);
        }
        let ghost before = self.vars@;
        self.vars.push((name, value));
        assert(self.vars@.drop_last() =~= before);
        Ok(())
    }

    /// Defines a constant; a name already defined, as either, is refused.
    pub fn set_const(&mut self, name: String, value: Value) -> (r: Result<(), EvalError>)
        ensures
            r is Err <==> old(self).const_map().contains_key(name@) || old(
                self,
            ).var_map().contains_key(name@),
            r is Err ==> r == Err::<(), EvalError>(EvalError::AlreadyDefined) && final(self).const_map()
                == old(self).const_map() && final(self).var_map() == old(self).var_map(),
            r is Ok ==> final(self).var_map() == old(self).var_map() && final(self).const_map()
                == old(self).const_map().insert(name@, value@),
    {
        proof {
            lemma_bindings_last(self.consts@, name@);
            lemma_bindings_last(self.vars@, name@);
        }
        if find(&self.consts, name.as_str()).is_some() || find(&self.vars, name.as_str()).is_some() {
            return Err(EvalError::AlreadyDefined);
        }
        let ghost before = self.consts@;
        self.consts.push((name, value));
        assert(self.consts@.drop_last() =~= before);
        Ok(())
    }
}

fn int_value(v: Option<i64>) -> (r: Result<Value, EvalError>)
    ensures
        v matches Some(x) ==> r matches Ok(Value::Integer(y)) && x == y,
        v is None ==> r == Err::<Value, EvalError>(EvalError::Overflow),
{
    match v {
        Some(x) => Ok(Value::Integer(x)),
        None => Err(EvalError::Overflow),
    }
}

fn concat(a: &Vec<char>, b: &Vec<char>) -> (r: String)
    ensures
        r@ == a@ + b@,
{
    let mut out: Vec<char> = Vec::new();
    let mut k: usize = 0;
    while k < a.len()
        invariant
            k <= a.len(),
            out@ == a@.subrange(0, k as int),
        decreases a.len() - k,
    {
        out.push(a[k]);
        k = k + 1;
    }
    let mut j: usize = 0;
    while j < b.len()
        invariant
            j <= b.len(),
            out@ == a@ + b@.subrange(0, j as int),
        decreases b.len() - j,
    {
        out.push(b[j]);
        j = j + 1;
    }
    assert(a@.subrange(0, a@.len() as int) =~= a@);
    assert(b@.subrange(0, b@.len() as int) =~= b@);
    assert(out@ =~= a@ + b@);
    string_of(out.as_slice())
}

fn repeat_chars(a: &Vec<char>, n: i64) -> (r: String)
    requires
        n >= 0,
    ensures
        r@ == repeat(a@, n as nat),
{
    let mut out: Vec<char> = Vec::new();
    let mut i: i64 = 0;
    while i < n
        invariant
            0 <= i <= n,
            out@ == repeat(a@, i as nat),
        decreases n - i,
    {
        let mut k: usize = 0;
        let ghost o = out@;
        while k < a.len()
            invariant
                k <= a.len(),
                out@ == o + a@.subrange(0, k as int),
            decreases a.len() - k,
        {
            out.push(a[k]);
            k = k + 1;
            assert(out@ =~= o + a@.subrange(0, k as int));
        }
        assert(a@.subrange(0, k as int) =~= a@);
        i = i + 1;
    }
    string_of(out.as_slice())
}

fn text_chars(v: &Value) -> (r: Vec<char>)
    requires
        v is CString || v is CChar,
    ensures
        v matches Value::CString(s) ==> r@ == s@,
        v matches Value::CChar(c) ==> r@ == seq![*c],
{
    match v {
        Value::CString(s) => chars_of(s.as_str()),
        Value::CChar(c) => {
            let out = vec![*c];
            assert(out@ =~= seq![*c]);
            out
        },
        _ => Vec::new(),
    }
}

fn same(a: &Value, b: &Value) -> (r: bool)
    ensures
        r == same_value(a@, b@),
{
    match (a, b) {
        (Value::Integer(x), Value::Integer(y)) => *x == *y,
        (Value::Bool(x), Value::Bool(y)) => *x == *y,
        (Value::CString(x), Value::CString(y)) => *x == *y,
        (Value::CChar(x), Value::CChar(y)) => *x == *y,
        _ => false,
    }
}

pub fn eval_unary(op: UnaryOp, v: Value) -> (r: Result<Value, EvalError>)
    ensures
        view_result(r) == unary_spec(op, v@),
{
    match (op, v) {
        (UnaryOp::Neg, Value::Integer(i)) => if i == i64::MIN {
            Err(EvalError::Overflow)
        } else {
            Ok(Value::Integer(-i))
        },
        (UnaryOp::Not, Value::Bool(b)) => Ok(Value::Bool(!b)),
        (UnaryOp::Not, Value::Integer(i)) => Ok(Value::Bool(i == 0)),
        _ => Err(EvalError::TypeMismatch),
    }
}

pub fn eval_binary(op: BinaryOp, a: Value, b: Value) -> (r: Result<Value, EvalError>)
    ensures
        view_result(r) == binary_spec(op, a@, b@),
{
    match op {
        BinaryOp::Add => match (&a, &b) {
            (Value::Integer(x), Value::Integer(y)) => int_value(x.checked_add(*y)),
            (Value::CString(_), Value::CString(_)) | (Value::CString(_), Value::CChar(_)) | (
                Value::CChar(_),
                Value::CString(_),
            ) | (Value::CChar(_), Value::CChar(_)) => {
                let x = text_chars(&a);
                let y = text_chars(&b);
                let s = concat(&x, &y);
                proof {
                    if a is CString && b is CChar {
                        assert(s@ =~= x@.push(y@[0]));
                    }
                    if a is CChar && b is CChar {
                        assert(s@ =~= seq![x@[0], y@[0]]);
                    }
                }
                Ok(Value::CString(s))
            },
            _ => Err(EvalError::TypeMismatch),
        },
        BinaryOp::Sub => match (&a, &b) {
            (Value::Integer(x), Value::Integer(y)) => int_value(x.checked_sub(*y)),
            _ => Err(EvalError::TypeMismatch),
        },
        BinaryOp::Mul => match (&a, &b) {
            (Value::Integer(x), Value::Integer(y)) => int_value(x.checked_mul(*y)),
            (Value::CString(_), Value::Integer(n)) | (Value::CChar(_), Value::Integer(n)) => {
                if *n < 0 {
                    Err(EvalError::NegativeRepeat)
                } else {
                    let x = text_chars(&a);
                    Ok(Value::CString(repeat_chars(&x, *n)))
                }
            },
            _ => Err(EvalError::TypeMismatch),
        },
        BinaryOp::Div => match (&a, &b) {
            (Value::Integer(_), Value::Integer(y)) => if *y == 0 {
                Err(EvalError::DivisionByZero)
            } else {
                Err(EvalError::FloatUnsupported)
            },
            _ => Err(EvalError::TypeMismatch),
        },
        BinaryOp::Eq => Ok(Value::Bool(same(&a, &b))),
        BinaryOp::Ne => Ok(Value::Bool(!same(&a, &b))),
        BinaryOp::Lt | BinaryOp::Le | BinaryOp::Gt | BinaryOp::Ge => match (&a, &b) {
            (Value::Integer(x), Value::Integer(y)) => Ok(
                Value::Bool(
                    match op {
                        BinaryOp::Lt => *x < *y,
                        BinaryOp::Le => *x <= *y,
                        BinaryOp::Gt => *x > *y,
                        _ => *x >= *y,
                    },
                ),
            ),
            _ => Err(EvalError::TypeMismatch),
        },
    }
}

/// Evaluates an expression; the left operand is evaluated before the right.
pub fn eval(expr: &Expr, env: &Env) -> (r: Result<Value, EvalError>)
    ensures
        view_result(r) == eval_spec(expr@, env.const_map(), env.var_map()),
    decreases expr,
{
    match expr {
        Expr::Integer(i) => Ok(Value::Integer(*i)),
        Expr::CString(s) => Ok(Value::CString(s.clone())),
        Expr::CChar(c) => Ok(Value::CChar(*c)),
        Expr::Variable(name) => match env.get(name.as_str()) {
            Some(v) => Ok(v),
            None => Err(EvalError::UndefinedVariable),
        },
        Expr::Unary(op, x) => {
            let v = match eval(x, env) {
                Ok(v) => v,
                Err(e) => {
                    return Err(e);
                },
            };
            eval_unary(*op, v)
        },
        Expr::Binary(l, op, r) => {
            let a = match eval(l, env) {
                Ok(v) => v,
                Err(e) => {
                    return Err(e);
                },
            };
            let b = match eval(r, env) {
                Ok(v) => v,
                Err(e) => {
                    return Err(e);
                },
            };
            eval_binary(*op, a, b)
        },
    }
}

} // verus!
