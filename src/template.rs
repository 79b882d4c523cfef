//! Response templates: a response shape with parameter placeholders is
//! compiled once into a flat list of parts, and each request renders the
//! parts against its parameter values.

use vstd::prelude::*;
use crate::numeric::{int_text, push_int_text};
use crate::text::{chars_of, string_of};
use crate::value::{FloatTerm, Op, TypedValue};

verus! {

broadcast use vstd::std_specs::vec::axiom_vec_index_decreases;

/// An arithmetic expression over route parameters.
#[derive(Debug)]
pub enum ExprNode {
    /// The value of the parameter with this name.
    Param(String),
    LiteralInt(i64),
    /// The `f64` with these bits.
    LiteralFloat(u64),
    BinaryOp(Box<ExprNode>, Op, Box<ExprNode>),
}

impl ExprNode {
    /// An equal copy.
    pub fn duplicate(&self) -> (r: ExprNode)
        ensures
            r == *self,
        decreases self,
    {
        match self {
            ExprNode::Param(n) => ExprNode::Param(n.clone()),
            ExprNode::LiteralInt(i) => ExprNode::LiteralInt(*i),
            ExprNode::LiteralFloat(b) => ExprNode::LiteralFloat(*b),
            ExprNode::BinaryOp(l, op, r) => {
                let l2 = l.duplicate();
                let r2 = r.duplicate();
                ExprNode::BinaryOp(Box::new(l2), *op, Box::new(r2))
            },
        }
    }
}

/// The shape of a response, as the handler declared it when called with
/// placeholders in place of its parameters.
#[derive(Debug)]
pub enum Shape {
    /// Entries in the order the mapping yields them.
    Object(Vec<(String, Shape)>),
    Array(Vec<Shape>),
    Str(String),
    Int(i64),
    /// A float literal, by the text the host writes for it.
    Float(String),
    Bool(bool),
    Null,
    /// A bare parameter placeholder.
    Trace(String),
    /// An expression over parameter placeholders.
    Expr(ExprNode),
    /// Any other value, by the text the host gives for it.
    Other(String),
}

/// One part of a compiled template.
#[derive(Debug)]
pub enum TemplatePart {
    /// Written as it stands.
    Static(String),
    /// The value of the named parameter.
    Dynamic(String),
    /// The value of an expression.
    Expression(ExprNode),
}

/// A template part with its texts as character sequences.
pub enum PartView {
    Static(Seq<char>),
    Dynamic(Seq<char>),
    Expression(ExprNode),
}

pub open spec fn part_view(p: TemplatePart) -> PartView {
    match p {
        TemplatePart::Static(s) => PartView::Static(s@),
        TemplatePart::Dynamic(n) => PartView::Dynamic(n@),
        TemplatePart::Expression(e) => PartView::Expression(e),
    }
}

pub open spec fn parts_view(v: Seq<TemplatePart>) -> Seq<PartView> {
    Seq::new(v.len(), |i: int| part_view(v[i]))
}

pub open spec fn quoted(s: Seq<char>) -> Seq<char> {
    seq!['"'] + s + seq!['"']
}

/// The items joined with a comma part between neighbours.
pub open spec fn comma_join(items: Seq<Seq<PartView>>) -> Seq<PartView>
    decreases items.len(),
{
    if items.len() == 0 {
        Seq::empty()
    } else if items.len() == 1 {
        items[0]
    } else {
        comma_join(items.drop_last()) + seq![PartView::Static(seq![','])] + items.last()
    }
}

pub open spec fn true_text() -> Seq<char> {
    seq!['t', 'r', 'u', 'e']
}

pub open spec fn false_text() -> Seq<char> {
    seq!['f', 'a', 'l', 's', 'e']
}

pub open spec fn null_text() -> Seq<char> {
    seq!['n', 'u', 'l', 'l']
}

/// The parts of one mapping entry: the quoted key with ':', then the value.
pub open spec fn entry_parts(key: Seq<char>, value: Seq<PartView>) -> Seq<PartView> {
    seq![PartView::Static(quoted(key) + seq![':'])] + value
}

/// The compiled parts of each mapping entry.
pub open spec fn entry_items(es: Vec<(String, Shape)>) -> Seq<Seq<PartView>>
    decreases es,
{
    Seq::new(
        es@.len(),
        |i: int|
            if 0 <= i < es@.len() {
                entry_parts(es@[i].0@, compile_spec(es@[i].1))
            } else {
                Seq::empty()
            },
    )
}

/// The compiled parts of each sequence element.
pub open spec fn element_items(xs: Vec<Shape>) -> Seq<Seq<PartView>>
    decreases xs,
{
    Seq::new(
        xs@.len(),
        |i: int|
            if 0 <= i < xs@.len() {
                compile_spec(xs@[i])
            } else {
                Seq::empty()
            },
    )
}

/// The template that a shape compiles to, depth first.
pub open spec fn compile_spec(s: Shape) -> Seq<PartView>
    decreases s,
{
    match s {
        Shape::Object(es) => seq![PartView::Static(seq!['{'])] + comma_join(entry_items(es))
            + seq![PartView::Static(seq!['}'])],
        Shape::Array(xs) => seq![PartView::Static(seq!['['])] + comma_join(element_items(xs))
            + seq![PartView::Static(seq![']'])],
        Shape::Str(t) => seq![PartView::Static(quoted(t@))],
        Shape::Int(n) => seq![PartView::Static(int_text(n as int))],
        Shape::Float(t) => seq![PartView::Static(t@)],
        Shape::Bool(b) => seq![PartView::Static(if b { true_text() } else { false_text() })],
        Shape::Null => seq![PartView::Static(null_text())],
        Shape::Trace(n) => seq![PartView::Dynamic(n@)],
        Shape::Expr(e) => seq![PartView::Expression(e)],
        Shape::Other(t) => seq![PartView::Static(quoted(t@))],
    }
}

fn static_part(v: &Vec<char>) -> (r: TemplatePart)
    ensures
        part_view(r) == PartView::Static(v@),
{
    TemplatePart::Static(string_of(v))
}

fn quoted_chars(s: &str, tail: Option<char>) -> (r: Vec<char>)
    ensures
        r@ == match tail {
            Some(c) => quoted(s@) + seq![c],
            None => quoted(s@),
        },
{
    let mut v: Vec<char> = Vec::new();
    v.push('"');
    let body = chars_of(s);
    let mut i: usize = 0;
    while i < body.len()
        invariant
            i <= body@.len(),
            v@ == seq!['"'] + body@.take(i as int),
        decreases body@.len() - i,
    {
        v.push(body[i]);
        assert(body@.take(i as int + 1) =~= body@.take(i as int).push(body@[i as int]));
        i = i + 1;
    }
    assert(body@.take(body@.len() as int) =~= body@);
    v.push('"');
    match tail {
        Some(c) => {
            v.push(c);
        },
        None => {},
    }
    assert(v@ =~= match tail {
        Some(c) => quoted(s@) + seq![c],
        None => quoted(s@),
    });
    v
}

fn push_static(out: &mut Vec<TemplatePart>, v: Vec<char>)
    ensures
        parts_view(final(out)@) == parts_view(old(out)@).push(PartView::Static(v@)),
{
    let p = static_part(&v);
    out.push(p);
    assert(parts_view(final(out)@) =~= parts_view(old(out)@).push(PartView::Static(v@)));
}

fn one_char(c: char) -> (r: Vec<char>)
    ensures
        r@ == seq![c],
{
    let mut v: Vec<char> = Vec::new();
    v.push(c);
    assert(v@ =~= seq![c]);
    v
}

proof fn lemma_parts_view_push(v: Seq<TemplatePart>, p: TemplatePart)
    ensures
        parts_view(v.push(p)) == parts_view(v).push(part_view(p)),
{
    assert(parts_view(v.push(p)) =~= parts_view(v).push(part_view(p)));
}

/// Appends the compiled parts of `shape` to `out`.
pub fn compile_into(shape: &Shape, out: &mut Vec<TemplatePart>)
    ensures
        parts_view(final(out)@) == parts_view(old(out)@) + compile_spec(*shape),
    decreases shape,
{
    let ghost start = parts_view(out@);
    match shape {
        Shape::Object(es) => {
            let ghost items = entry_items(*es);
            push_static(out, one_char('{'));
            let mut i: usize = 0;
            while i < es.len()
                invariant
                    *shape matches Shape::Object(e) && e == *es,
                    i <= es@.len(),
                    items.len() == es@.len(),
                    forall|j: int|
                        0 <= j < es@.len() ==> #[trigger] items[j] == entry_parts(
                            es@[j].0@,
                            compile_spec(es@[j].1),
                        ),
                    parts_view(out@) == start + seq![PartView::Static(seq!['{'])] + comma_join(
                        items.take(i as int),
                    ),
                decreases es@.len() - i,
            {
                let ghost before = parts_view(out@);
                if i > 0 {
                    push_static(out, one_char(','));
                }
                let ghost mid = parts_view(out@);
                let (key, value) = &es[i];
                push_static(out, quoted_chars(key.as_str(), Some(':')));
                let ghost mid2 = parts_view(out@);
                proof {
                    assert(decreases_to!(*shape => shape->Object_0));
                    assert(decreases_to!(shape->Object_0 => shape->Object_0[i as int]));
                    assert(decreases_to!(shape->Object_0[i as int] => shape->Object_0[i as int].1));
                }
                compile_into(value, out);
                proof {
                    let t = items.take(i as int + 1);
                    assert(t.drop_last() =~= items.take(i as int));
                    assert(t.last() == entry_parts(key@, compile_spec(*value)));
                    if i == 0 {
                        assert(items.take(0) =~= Seq::<Seq<PartView>>::empty());
                        assert(parts_view(out@) =~= start + seq![PartView::Static(seq!['{'])]
                            + comma_join(t));
                    } else {
                        assert(parts_view(out@) =~= start + seq![PartView::Static(seq!['{'])]
                            + comma_join(t));
                    }
                }
                i = i + 1;
            }
            assert(items.take(es@.len() as int) =~= items);
            push_static(out, one_char('}'));
            assert(parts_view(out@) =~= start + compile_spec(*shape));
        },
        Shape::Array(xs) => {
            let ghost items = element_items(*xs);
            push_static(out, one_char('['));
            let mut i: usize = 0;
            while i < xs.len()
                invariant
                    *shape matches Shape::Array(x) && x == *xs,
                    i <= xs@.len(),
                    items.len() == xs@.len(),
                    forall|j: int| 0 <= j < xs@.len() ==> #[trigger] items[j] == compile_spec(xs@[j]),
                    parts_view(out@) == start + seq![PartView::Static(seq!['['])] + comma_join(
                        items.take(i as int),
                    ),
                decreases xs@.len() - i,
            {
                if i > 0 {
                    push_static(out, one_char(','));
                }
                proof {
                    assert(decreases_to!(*shape => shape->Array_0));
                    assert(decreases_to!(shape->Array_0 => shape->Array_0[i as int]));
                }
                compile_into(&xs[i], out);
                proof {
                    let t = items.take(i as int + 1);
                    assert(t.drop_last() =~= items.take(i as int));
                    assert(t.last() == compile_spec(xs@[i as int]));
                    if i == 0 {
                        assert(items.take(0) =~= Seq::<Seq<PartView>>::empty());
                    }
                    assert(parts_view(out@) =~= start + seq![PartView::Static(seq!['['])]
                        + comma_join(t));
                }
                i = i + 1;
            }
            assert(items.take(xs@.len() as int) =~= items);
            push_static(out, one_char(']'));
            assert(parts_view(out@) =~= start + compile_spec(*shape));
        },
        Shape::Str(t) => {
            push_static(out, quoted_chars(t.as_str(), None));
            assert(parts_view(out@) =~= start + compile_spec(*shape));
        },
        Shape::Int(n) => {
            let mut v: Vec<char> = Vec::new();
            push_int_text(*n, &mut v);
            assert(v@ =~= int_text(*n as int));
            push_static(out, v);
            assert(parts_view(out@) =~= start + compile_spec(*shape));
        },
        Shape::Float(t) => {
            push_static(out, chars_of(t.as_str()));
            assert(parts_view(out@) =~= start + compile_spec(*shape));
        },
        Shape::Bool(b) => {
            let v = if *b {
                let mut v = one_char('t');
                v.push('r');
                v.push('u');
                v.push('e');
                assert(v@ =~= true_text());
                v
            } else {
                let mut v = one_char('f');
                v.push('a');
                v.push('l');
                v.push('s');
                v.push('e');
                assert(v@ =~= false_text());
                v
            };
            push_static(out, v);
            assert(parts_view(out@) =~= start + compile_spec(*shape));
        },
        Shape::Null => {
            push_static(out, null_chars());
            assert(parts_view(out@) =~= start + compile_spec(*shape));
        },
        Shape::Trace(n) => {
            out.push(TemplatePart::Dynamic(n.clone()));
            assert(parts_view(out@) =~= start + compile_spec(*shape));
        },
        Shape::Expr(e) => {
            out.push(TemplatePart::Expression(e.duplicate()));
            assert(parts_view(out@) =~= start + compile_spec(*shape));
        },
        Shape::Other(t) => {
            push_static(out, quoted_chars(t.as_str(), None));
            assert(parts_view(out@) =~= start + compile_spec(*shape));
        },
    }
}

fn null_chars() -> (r: Vec<char>)
    ensures
        r@ == null_text(),
{
    let mut v = one_char('n');
    v.push('u');
    v.push('l');
    v.push('l');
    assert(v@ =~= null_text());
    v
}

/// Compiles a response shape into its template.
pub fn compile_structure(shape: &Shape) -> (r: Vec<TemplatePart>)
    ensures
        parts_view(r@) == compile_spec(*shape),
{
    let mut out: Vec<TemplatePart> = Vec::new();
    compile_into(shape, &mut out);
    assert(parts_view(Seq::<TemplatePart>::empty()) =~= Seq::<PartView>::empty());
    assert(Seq::<PartView>::empty() + compile_spec(*shape) =~= compile_spec(*shape));
    out
}


// ---------------------------------------------------------------------
// Evaluation
// ---------------------------------------------------------------------

/// Why an expression has no value.
#[derive(Debug, Clone, Copy, PartialEq, Eq)]
pub enum EvalError {
    /// It names a parameter that the request does not have.
    MissingParam,
    /// An operand is a string or a big integer.
    UnsupportedOperands,
    /// An integer result does not fit in 64 bits.
    Overflow,
}

/// The value of the first parameter with this name.
pub open spec fn lookup(params: Seq<(String, TypedValue)>, name: Seq<char>) -> Option<TypedValue>
    decreases params.len(),
{
    if params.len() == 0 {
        None
    } else if params[0].0@ == name {
        Some(params[0].1)
    } else {
        lookup(params.skip(1), name)
    }
}

/// The result of an integer operation, when it fits in 64 bits.
pub open spec fn int_result(v: int) -> Result<TypedValue, EvalError> {
    if i64::MIN <= v <= i64::MAX {
        Ok(TypedValue::Int(v as i64))
    } else {
        Err(EvalError::Overflow)
    }
}

/// An operand as a float: integers are promoted.
pub open spec fn as_float(v: TypedValue) -> FloatTerm {
    match v {
        TypedValue::Int(n) => FloatTerm::OfInt(n),
        TypedValue::Float(f) => f,
        _ => FloatTerm::Bits(0),
    }
}

pub open spec fn is_number(v: TypedValue) -> bool {
    v is Int || v is Float
}

/// Applies an operator: integers stay integers for `+ - *`, `/` always
/// gives a float, a float on either side makes the operation a float one.
pub open spec fn combine_spec(a: TypedValue, op: Op, b: TypedValue) -> Result<TypedValue, EvalError> {
    if !is_number(a) || !is_number(b) {
        Err(EvalError::UnsupportedOperands)
    } else if a is Int && b is Int && op != Op::Div {
        let (x, y) = (a->Int_0 as int, b->Int_0 as int);
        match op {
            Op::Add => int_result(x + y),
            Op::Sub => int_result(x - y),
            _ => int_result(x * y),
        }
    } else {
        Ok(TypedValue::Float(FloatTerm::Bin(Box::new(as_float(a)), op, Box::new(as_float(b)))))
    }
}

/// The value of an expression over the parameters; the left operand is
/// evaluated before the right one.
pub open spec fn eval_spec(e: ExprNode, params: Seq<(String, TypedValue)>) -> Result<TypedValue, EvalError>
    decreases e,
{
    match e {
        ExprNode::Param(n) => match lookup(params, n@) {
            Some(v) => Ok(v),
            None => Err(EvalError::MissingParam),
        },
        ExprNode::LiteralInt(i) => Ok(TypedValue::Int(i)),
        ExprNode::LiteralFloat(b) => Ok(TypedValue::Float(FloatTerm::Bits(b))),
        ExprNode::BinaryOp(l, op, r) => match eval_spec(*l, params) {
            Err(x) => Err(x),
            Ok(a) => match eval_spec(*r, params) {
                Err(x) => Err(x),
                Ok(b) => combine_spec(a, op, b),
            },
        },
    }
}

/// Finds the first parameter with this name.
pub fn find_param<'a>(params: &'a Vec<(String, TypedValue)>, name: &String) -> (r: Option<&'a TypedValue>)
    ensures
        match r {
            Some(v) => lookup(params@, name@) == Some(*v),
            None => lookup(params@, name@) is None,
        },
{
    let mut i: usize = 0;
    assert(params@.skip(0) =~= params@);
    while i < params.len()
        invariant
            i <= params@.len(),
            lookup(params@, name@) == lookup(params@.skip(i as int), name@),
        decreases params@.len() - i,
    {
        assert(params@.skip(i as int)[0] == params@[i as int]);
        if params[i].0 == *name {
            return Some(&params[i].1);
        }
        assert(params@.skip(i as int).skip(1) =~= params@.skip(i as int + 1));
        i = i + 1;
    }
    assert(params@.skip(i as int).len() == 0);
    None
}

fn int_op(x: i64, op: Op, y: i64) -> (r: Result<TypedValue, EvalError>)
    requires
        op != Op::Div,
    ensures
        r == combine_spec(TypedValue::Int(x), op, TypedValue::Int(y)),
{
    let v: i128 = match op {
        Op::Add => x as i128 + y as i128,
        Op::Sub => x as i128 - y as i128,
        _ => {
            assert((x as i128) * (y as i128) <= 9223372036854775808 * 9223372036854775808)
                by (nonlinear_arith);
            assert((x as i128) * (y as i128) >= -9223372036854775808 * 9223372036854775808)
                by (nonlinear_arith);
            x as i128 * y as i128
        },
    };
    if v < i64::MIN as i128 || v > i64::MAX as i128 {
        Err(EvalError::Overflow)
    } else {
        Ok(TypedValue::Int(v as i64))
    }
}

fn promote(v: TypedValue) -> (r: FloatTerm)
    requires
        is_number(v),
    ensures
        r == as_float(v),
{
    match v {
        TypedValue::Int(n) => FloatTerm::OfInt(n),
        TypedValue::Float(f) => f,
        TypedValue::BigInt(_) => FloatTerm::Bits(0),
        TypedValue::Str(_) => FloatTerm::Bits(0),
    }
}

/// Applies an operator to two values.
pub fn combine(a: TypedValue, op: Op, b: TypedValue) -> (r: Result<TypedValue, EvalError>)
    ensures
        r == combine_spec(a, op, b),
{
    let numbers = match (&a, &b) {
        (TypedValue::Int(_), TypedValue::Int(_)) => 2u8,
        (TypedValue::Int(_), TypedValue::Float(_)) => 1,
        (TypedValue::Float(_), TypedValue::Int(_)) => 1,
        (TypedValue::Float(_), TypedValue::Float(_)) => 1,
        _ => 0,
    };
    if numbers == 0 {
        return Err(EvalError::UnsupportedOperands);
    }
    let division = match op {
        Op::Div => true,
        _ => false,
    };
    if numbers == 2 && !division {
        match (&a, &b) {
            (TypedValue::Int(x), TypedValue::Int(y)) => {
                return int_op(*x, op, *y);
            },
            _ => {},
        }
    }
    let l = promote(a);
    let r = promote(b);
    Ok(TypedValue::Float(FloatTerm::Bin(Box::new(l), op, Box::new(r))))
}

/// Evaluates an expression against the request's parameters.
pub fn evaluate_expr(e: &ExprNode, params: &Vec<(String, TypedValue)>) -> (r: Result<TypedValue, EvalError>)
    ensures
        r == eval_spec(*e, params@),
    decreases e,
{
    match e {
        ExprNode::Param(n) => match find_param(params, n) {
            Some(v) => Ok(v.duplicate()),
            None => Err(EvalError::MissingParam),
        },
        ExprNode::LiteralInt(i) => Ok(TypedValue::Int(*i)),
        ExprNode::LiteralFloat(b) => Ok(TypedValue::Float(FloatTerm::Bits(*b))),
        ExprNode::BinaryOp(l, op, r) => {
            let a = match evaluate_expr(l, params) {
                Ok(a) => a,
                Err(x) => {
                    return Err(x);
                },
            };
            let b = match evaluate_expr(r, params) {
                Ok(b) => b,
                Err(x) => {
                    return Err(x);
                },
            };
            combine(a, *op, b)
        },
    }
}

// ---------------------------------------------------------------------
// Rendering
// ---------------------------------------------------------------------

/// One rendered part: text, or a float that the host writes out.
#[derive(Debug)]
pub enum Piece {
    Text(String),
    Float(FloatTerm),
}

pub enum PieceView {
    Text(Seq<char>),
    Float(FloatTerm),
}

pub open spec fn piece_view(p: Piece) -> PieceView {
    match p {
        Piece::Text(s) => PieceView::Text(s@),
        Piece::Float(f) => PieceView::Float(f),
    }
}

pub open spec fn pieces_view(v: Seq<Piece>) -> Seq<PieceView> {
    Seq::new(v.len(), |i: int| piece_view(v[i]))
}

/// How a value is written: integers in decimal, big integers by their
/// digits, strings between quotes (not escaped), floats by the host.
pub open spec fn value_piece(v: TypedValue) -> PieceView {
    match v {
        TypedValue::Int(n) => PieceView::Text(int_text(n as int)),
        TypedValue::BigInt(s) => PieceView::Text(s@),
        TypedValue::Float(f) => PieceView::Float(f),
        TypedValue::Str(s) => PieceView::Text(quoted(s@)),
    }
}

/// What one template part renders to; a missing parameter or a failed
/// expression is written as `null`.
pub open spec fn render_part(p: TemplatePart, params: Seq<(String, TypedValue)>) -> PieceView {
    match p {
        TemplatePart::Static(s) => PieceView::Text(s@),
        TemplatePart::Dynamic(n) => match lookup(params, n@) {
            Some(v) => value_piece(v),
            None => PieceView::Text(null_text()),
        },
        TemplatePart::Expression(e) => match eval_spec(e, params) {
            Ok(v) => value_piece(v),
            Err(_) => PieceView::Text(null_text()),
        },
    }
}

pub open spec fn render_spec(tpl: Seq<TemplatePart>, params: Seq<(String, TypedValue)>) -> Seq<PieceView> {
    Seq::new(tpl.len(), |i: int| render_part(tpl[i], params))
}

fn write_value(v: &TypedValue) -> (r: Piece)
    ensures
        piece_view(r) == value_piece(*v),
{
    match v {
        TypedValue::Int(n) => {
            let mut c: Vec<char> = Vec::new();
            push_int_text(*n, &mut c);
            assert(c@ =~= int_text(*n as int));
            Piece::Text(string_of(&c))
        },
        TypedValue::BigInt(s) => Piece::Text(s.clone()),
        TypedValue::Float(f) => Piece::Float(f.duplicate()),
        TypedValue::Str(s) => Piece::Text(string_of(&quoted_chars(s.as_str(), None))),
    }
}

fn null_piece() -> (r: Piece)
    ensures
        piece_view(r) == PieceView::Text(null_text()),
{
    Piece::Text(string_of(&null_chars()))
}

/// Renders every part of a template, in order.
pub fn render(tpl: &Vec<TemplatePart>, params: &Vec<(String, TypedValue)>) -> (r: Vec<Piece>)
    ensures
        pieces_view(r@) == render_spec(tpl@, params@),
{
    let mut out: Vec<Piece> = Vec::new();
    let mut i: usize = 0;
    while i < tpl.len()
        invariant
            i <= tpl@.len(),
            pieces_view(out@) == render_spec(tpl@, params@).take(i as int),
        decreases tpl@.len() - i,
    {
        let piece = match &tpl[i] {
            TemplatePart::Static(s) => Piece::Text(s.clone()),
            TemplatePart::Dynamic(n) => match find_param(params, n) {
                Some(v) => write_value(v),
                None => null_piece(),
            },
            TemplatePart::Expression(e) => match evaluate_expr(e, params) {
                Ok(v) => write_value(&v),
                Err(_) => null_piece(),
            },
        };
        let ghost pv = piece_view(piece);
        assert(pv == render_part(tpl@[i as int], params@));
        let ghost before = out@;
        out.push(piece);
        assert(pieces_view(out@) =~= pieces_view(before).push(pv));
        assert(pieces_view(out@) =~= render_spec(tpl@, params@).take(i as int + 1));
        i = i + 1;
    }
    assert(render_spec(tpl@, params@).take(tpl@.len() as int) =~= render_spec(tpl@, params@));
    out
}

/// The concatenated text of the pieces, when none of them is a float.
pub open spec fn texts_of(ps: Seq<PieceView>) -> Option<Seq<char>>
    decreases ps.len(),
{
    if ps.len() == 0 {
        Some(Seq::empty())
    } else {
        match (texts_of(ps.drop_last()), ps.last()) {
            (Some(t), PieceView::Text(x)) => Some(t + x),
            _ => None,
        }
    }
}

/// Joins the pieces into one text; `None` when a float has to be written by
/// the host first.
pub fn join_text(ps: &Vec<Piece>) -> (r: Option<String>)
    ensures
        match r {
            Some(s) => texts_of(pieces_view(ps@)) == Some(s@),
            None => texts_of(pieces_view(ps@)) is None,
        },
{
    let mut acc = String::new();
    let mut i: usize = 0;
    while i < ps.len()
        invariant
            i <= ps@.len(),
            texts_of(pieces_view(ps@).take(i as int)) == Some(acc@),
        decreases ps@.len() - i,
    {
        let ghost t = pieces_view(ps@).take(i as int + 1);
        assert(t.drop_last() =~= pieces_view(ps@).take(i as int));
        match &ps[i] {
            Piece::Text(x) => {
                acc.append(x.as_str());
            },
            Piece::Float(_) => {
                proof {
                    lemma_texts_none_extends(pieces_view(ps@), i as int + 1);
                    assert(pieces_view(ps@).take(ps@.len() as int) =~= pieces_view(ps@));
                }
                return None;
            },
        }
        i = i + 1;
    }
    assert(pieces_view(ps@).take(ps@.len() as int) =~= pieces_view(ps@));
    Some(acc)
}

proof fn lemma_texts_none_extends(ps: Seq<PieceView>, k: int)
    requires
        0 <= k <= ps.len(),
        texts_of(ps.take(k)) is None,
    ensures
        texts_of(ps) is None,
    decreases ps.len() - k,
{
    if k < ps.len() {
        assert(ps.take(k + 1).drop_last() =~= ps.take(k));
        lemma_texts_none_extends(ps, k + 1);
    } else {
        assert(ps.take(k) =~= ps);
    }
}


// ---------------------------------------------------------------------
// Parameters that are written alike
// ---------------------------------------------------------------------

/// Two values that are written the same way: equal integers, texts with the
/// same characters, or two floats.
pub open spec fn same_value(a: TypedValue, b: TypedValue) -> bool {
    match (a, b) {
        (TypedValue::Int(x), TypedValue::Int(y)) => x == y,
        (TypedValue::BigInt(s), TypedValue::BigInt(t)) => s@ == t@,
        (TypedValue::Str(s), TypedValue::Str(t)) => s@ == t@,
        (TypedValue::Float(_), TypedValue::Float(_)) => true,
        _ => false,
    }
}

/// Parameter lists with the same names, in order, and values written alike.
pub open spec fn same_params(p: Seq<(String, TypedValue)>, q: Seq<(String, TypedValue)>) -> bool {
    &&& p.len() == q.len()
    &&& forall|i: int| 0 <= i < p.len() ==> (#[trigger] p[i]).0@ == q[i].0@ && same_value(p[i].1, q[i].1)
}

pub open spec fn same_piece(x: PieceView, y: PieceView) -> bool {
    match (x, y) {
        (PieceView::Text(a), PieceView::Text(b)) => a == b,
        (PieceView::Float(_), PieceView::Float(_)) => true,
        _ => false,
    }
}

proof fn lemma_lookup_same(p: Seq<(String, TypedValue)>, q: Seq<(String, TypedValue)>, n: Seq<char>)
    requires
        same_params(p, q),
    ensures
        match (lookup(p, n), lookup(q, n)) {
            (None, None) => true,
            (Some(a), Some(b)) => same_value(a, b),
            _ => false,
        },
    decreases p.len(),
{
    if p.len() > 0 {
        assert(p[0].0@ == q[0].0@ && same_value(p[0].1, q[0].1));
        assert forall|i: int| 0 <= i < p.skip(1).len() implies (#[trigger] p.skip(1)[i]).0@ == q.skip(
            1,
        )[i].0@ && same_value(p.skip(1)[i].1, q.skip(1)[i].1) by {
            assert(p.skip(1)[i] == p[i + 1]);
            assert(q.skip(1)[i] == q[i + 1]);
        }
        lemma_lookup_same(p.skip(1), q.skip(1), n);
    }
}

proof fn lemma_eval_same(e: ExprNode, p: Seq<(String, TypedValue)>, q: Seq<(String, TypedValue)>)
    requires
        same_params(p, q),
    ensures
        match (eval_spec(e, p), eval_spec(e, q)) {
            (Err(x), Err(y)) => x == y,
            (Ok(a), Ok(b)) => same_value(a, b),
            _ => false,
        },
    decreases e,
{
    match e {
        ExprNode::Param(n) => lemma_lookup_same(p, q, n@),
        ExprNode::BinaryOp(l, op, r) => {
            lemma_eval_same(*l, p, q);
            lemma_eval_same(*r, p, q);
        },
        _ => {},
    }
}

proof fn lemma_texts_same(x: Seq<PieceView>, y: Seq<PieceView>)
    requires
        x.len() == y.len(),
        forall|i: int| 0 <= i < x.len() ==> same_piece(#[trigger] x[i], y[i]),
    ensures
        texts_of(x) == texts_of(y),
    decreases x.len(),
{
    if x.len() > 0 {
        assert forall|i: int| 0 <= i < x.drop_last().len() implies same_piece(
            #[trigger] x.drop_last()[i],
            y.drop_last()[i],
        ) by {
            assert(same_piece(x[i], y[i]));
        }
        lemma_texts_same(x.drop_last(), y.drop_last());
        assert(same_piece(x[x.len() - 1], y[y.len() - 1]));
    }
}

/// Rendering against parameters written alike gives the same text, or for
/// both a float to be written by the host.
pub proof fn lemma_render_same(
    tpl: Seq<TemplatePart>,
    p: Seq<(String, TypedValue)>,
    q: Seq<(String, TypedValue)>,
)
    requires
        same_params(p, q),
    ensures
        texts_of(render_spec(tpl, p)) == texts_of(render_spec(tpl, q)),
{
    let x = render_spec(tpl, p);
    let y = render_spec(tpl, q);
    assert forall|i: int| 0 <= i < x.len() implies same_piece(#[trigger] x[i], y[i]) by {
        match tpl[i] {
            TemplatePart::Dynamic(n) => lemma_lookup_same(p, q, n@),
            TemplatePart::Expression(e) => lemma_eval_same(e, p, q),
            _ => {},
        }
    }
    lemma_texts_same(x, y);
}

// ---------------------------------------------------------------------
// Laws
// ---------------------------------------------------------------------

/// Compiling the same response shape twice yields the same template.
pub proof fn lemma_compile_deterministic(shape: Shape, a: Seq<TemplatePart>, b: Seq<TemplatePart>)
    requires
        parts_view(a) == compile_spec(shape),
        parts_view(b) == compile_spec(shape),
    ensures
        parts_view(a) == parts_view(b),
        a.len() == b.len(),
{
    assert(a.len() == parts_view(a).len());
    assert(b.len() == parts_view(b).len());
}

/// A shape with no parameter placeholder anywhere in it.
pub open spec fn is_pure(s: Shape) -> bool
    decreases s,
{
    match s {
        Shape::Object(es) => forall|i: int| 0 <= i < es@.len() ==> is_pure(#[trigger] es@[i].1),
        Shape::Array(xs) => forall|i: int| 0 <= i < xs@.len() ==> is_pure(#[trigger] xs@[i]),
        Shape::Trace(_) => false,
        Shape::Expr(_) => false,
        _ => true,
    }
}

/// Texts joined with ',' between neighbours.
pub open spec fn char_join(items: Seq<Seq<char>>) -> Seq<char>
    decreases items.len(),
{
    if items.len() == 0 {
        Seq::empty()
    } else if items.len() == 1 {
        items[0]
    } else {
        char_join(items.drop_last()) + seq![','] + items.last()
    }
}

/// The JSON text of each mapping entry: quoted key, ':', value.
pub open spec fn entry_texts(es: Vec<(String, Shape)>) -> Seq<Seq<char>>
    decreases es,
{
    Seq::new(
        es@.len(),
        |i: int|
            if 0 <= i < es@.len() {
                quoted(es@[i].0@) + seq![':'] + literal_json(es@[i].1)
            } else {
                Seq::empty()
            },
    )
}

/// The JSON text of each sequence element.
pub open spec fn element_texts(xs: Vec<Shape>) -> Seq<Seq<char>>
    decreases xs,
{
    Seq::new(
        xs@.len(),
        |i: int|
            if 0 <= i < xs@.len() {
                literal_json(xs@[i])
            } else {
                Seq::empty()
            },
    )
}

/// The JSON text of a placeholder-free shape: keys and strings between
/// quotes as they stand, numbers, booleans and null as written.
pub open spec fn literal_json(s: Shape) -> Seq<char>
    decreases s,
{
    match s {
        Shape::Object(es) => seq!['{'] + char_join(entry_texts(es)) + seq!['}'],
        Shape::Array(xs) => seq!['['] + char_join(element_texts(xs)) + seq![']'],
        Shape::Str(t) => quoted(t@),
        Shape::Int(n) => int_text(n as int),
        Shape::Float(t) => t@,
        Shape::Bool(b) => if b {
            true_text()
        } else {
            false_text()
        },
        Shape::Null => null_text(),
        Shape::Other(t) => quoted(t@),
        _ => Seq::empty(),
    }
}

pub open spec fn all_static(ps: Seq<PartView>) -> bool {
    forall|i: int| 0 <= i < ps.len() ==> (#[trigger] ps[i]) is Static
}

/// The texts of static parts, concatenated.
pub open spec fn static_concat(ps: Seq<PartView>) -> Seq<char>
    decreases ps.len(),
{
    if ps.len() == 0 {
        Seq::empty()
    } else {
        static_concat(ps.drop_last()) + match ps.last() {
            PartView::Static(x) => x,
            _ => Seq::empty(),
        }
    }
}

proof fn lemma_static_concat_append(a: Seq<PartView>, b: Seq<PartView>)
    ensures
        static_concat(a + b) == static_concat(a) + static_concat(b),
    decreases b.len(),
{
    if b.len() == 0 {
        assert(a + b =~= a);
        assert(static_concat(a) + static_concat(b) =~= static_concat(a));
    } else {
        assert((a + b).drop_last() =~= a + b.drop_last());
        lemma_static_concat_append(a, b.drop_last());
        assert(static_concat(a + b) =~= static_concat(a) + static_concat(b));
    }
}

proof fn lemma_comma_join(items: Seq<Seq<PartView>>, texts: Seq<Seq<char>>)
    requires
        items.len() == texts.len(),
        forall|i: int|
            0 <= i < items.len() ==> all_static(#[trigger] items[i]) && static_concat(items[i])
                == texts[i],
    ensures
        all_static(comma_join(items)),
        static_concat(comma_join(items)) == char_join(texts),
    decreases items.len(),
{
    if items.len() == 1 {
        assert(all_static(items[0]));
    } else if items.len() > 1 {
        lemma_comma_join(items.drop_last(), texts.drop_last());
        let left = comma_join(items.drop_last());
        let mid = seq![PartView::Static(seq![','])];
        let last = items.last();
        assert(all_static(last));
        lemma_static_concat_append(left, mid);
        lemma_static_concat_append(left + mid, last);
        lemma_single_static(seq![',']);
        assert forall|i: int| 0 <= i < (left + mid + last).len() implies (#[trigger] (left + mid
            + last)[i]) is Static by {
            if i < left.len() {
                assert((left + mid + last)[i] == left[i]);
            } else if i < left.len() + 1 {
                assert((left + mid + last)[i] == mid[i - left.len()]);
            } else {
                assert((left + mid + last)[i] == last[i - left.len() - 1]);
            }
        }
    }
}

proof fn lemma_single_static(x: Seq<char>)
    ensures
        all_static(seq![PartView::Static(x)]),
        static_concat(seq![PartView::Static(x)]) == x,
{
    reveal_with_fuel(static_concat, 2);
    assert(seq![PartView::Static(x)].drop_last() =~= Seq::<PartView>::empty());
    assert(Seq::<char>::empty() + x =~= x);
}

proof fn lemma_wrapped(open: char, body: Seq<PartView>, close: char)
    requires
        all_static(body),
    ensures
        all_static(seq![PartView::Static(seq![open])] + body + seq![PartView::Static(seq![close])]),
        static_concat(seq![PartView::Static(seq![open])] + body + seq![PartView::Static(seq![close])])
            == seq![open] + static_concat(body) + seq![close],
{
    let a = seq![PartView::Static(seq![open])];
    let c = seq![PartView::Static(seq![close])];
    lemma_single_static(seq![open]);
    lemma_single_static(seq![close]);
    lemma_static_concat_append(a, body);
    lemma_static_concat_append(a + body, c);
    assert forall|i: int| 0 <= i < (a + body + c).len() implies (#[trigger] (a + body + c)[i]) is Static by {
        if i == 0 {
        } else if i < 1 + body.len() {
            assert((a + body + c)[i] == body[i - 1]);
        } else {
            assert((a + body + c)[i] == c[0]);
        }
    }
}

/// A placeholder-free shape compiles to static parts whose texts make up
/// its JSON text.
pub proof fn lemma_pure_compiles_static(s: Shape)
    requires
        is_pure(s),
    ensures
        all_static(compile_spec(s)),
        static_concat(compile_spec(s)) == literal_json(s),
    decreases s,
{
    match s {
        Shape::Object(es) => {
            let items = entry_items(es);
            let texts = entry_texts(es);
            assert forall|i: int| 0 <= i < items.len() implies all_static(#[trigger] items[i])
                && static_concat(items[i]) == texts[i] by {
                assert(decreases_to!(s => es));
                assert(decreases_to!(es => es[i]));
                assert(decreases_to!(es[i] => es[i].1));
                lemma_pure_compiles_static(es@[i].1);
                let k = quoted(es@[i].0@) + seq![':'];
                lemma_single_static(k);
                lemma_static_concat_append(seq![PartView::Static(k)], compile_spec(es@[i].1));
                let whole = seq![PartView::Static(k)] + compile_spec(es@[i].1);
                assert forall|q: int| 0 <= q < whole.len() implies (#[trigger] whole[q]) is Static by {
                    if q > 0 {
                        assert(whole[q] == compile_spec(es@[i].1)[q - 1]);
                    }
                }
            }
            lemma_comma_join(items, texts);
            lemma_wrapped('{', comma_join(items), '}');
        },
        Shape::Array(xs) => {
            let items = element_items(xs);
            let texts = element_texts(xs);
            assert forall|i: int| 0 <= i < items.len() implies all_static(#[trigger] items[i])
                && static_concat(items[i]) == texts[i] by {
                assert(decreases_to!(s => xs));
                assert(decreases_to!(xs => xs[i]));
                lemma_pure_compiles_static(xs@[i]);
            }
            lemma_comma_join(items, texts);
            lemma_wrapped('[', comma_join(items), ']');
        },
        Shape::Str(t) => lemma_single_static(quoted(t@)),
        Shape::Int(n) => lemma_single_static(int_text(n as int)),
        Shape::Float(t) => lemma_single_static(t@),
        Shape::Bool(b) => lemma_single_static(if b { true_text() } else { false_text() }),
        Shape::Null => lemma_single_static(null_text()),
        Shape::Other(t) => lemma_single_static(quoted(t@)),
        _ => {},
    }
}

proof fn lemma_render_static(tpl: Seq<TemplatePart>, params: Seq<(String, TypedValue)>)
    requires
        all_static(parts_view(tpl)),
    ensures
        texts_of(render_spec(tpl, params)) == Some(static_concat(parts_view(tpl))),
    decreases tpl.len(),
{
    if tpl.len() > 0 {
        let d = tpl.drop_last();
        assert forall|i: int| 0 <= i < parts_view(d).len() implies (#[trigger] parts_view(d)[i]) is Static by {
            assert(parts_view(d)[i] == parts_view(tpl)[i]);
        }
        lemma_render_static(d, params);
        assert(render_spec(tpl, params).drop_last() =~= render_spec(d, params));
        assert(parts_view(tpl).drop_last() =~= parts_view(d));
        assert(parts_view(tpl)[tpl.len() - 1] is Static);
    }
}

/// Rendering the template of a placeholder-free shape, whatever the
/// parameters, reproduces exactly the shape's JSON text.
pub proof fn lemma_pure_round_trip(s: Shape, tpl: Seq<TemplatePart>, params: Seq<(String, TypedValue)>)
    requires
        is_pure(s),
        parts_view(tpl) == compile_spec(s),
    ensures
        texts_of(render_spec(tpl, params)) == Some(literal_json(s)),
{
    lemma_pure_compiles_static(s);
    lemma_render_static(tpl, params);
}

} // verus!
