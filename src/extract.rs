//! Turning captured path texts into typed parameter values.

use vstd::prelude::*;
use crate::numeric::{float_text, i64_of, integer_text, is_float_text, is_integer_text, parse_i64};
use crate::pattern::{
    compile_pattern, captures_of, is_placeholder, path_matches, placeholder_name, specs_of, CompiledPattern, ParamSpec,
    Segment,
};
use crate::text::{chars_of, split_on_slash, split_slash, string_of, views};
use crate::value::{FloatTerm, ParamType, TypedValue};

verus! {

/// A captured text that does not read as its declared type.
#[derive(Debug)]
pub struct ParamError {
    pub name: String,
    pub expected: ParamType,
    pub got: String,
}

/// Whether the text `v` is acceptable for a parameter of type `k`.
pub open spec fn value_ok(k: ParamType, v: Seq<char>) -> bool {
    match k {
        ParamType::Int => i64_of(v) is Some || is_integer_text(v),
        ParamType::Float => is_float_text(v),
        _ => true,
    }
}

/// `tv` is the value that the text `v` gives for a parameter of type `k`:
/// an `i64` when it fits, else the digits as a big integer; a float by its
/// text; anything else as the text itself.
pub open spec fn value_is(tv: TypedValue, k: ParamType, v: Seq<char>) -> bool {
    match k {
        ParamType::Int => match i64_of(v) {
            Some(n) => tv == TypedValue::Int(n),
            None => tv matches TypedValue::BigInt(s) && s@ == v,
        },
        ParamType::Float => tv matches TypedValue::Float(FloatTerm::Text(s)) && s@ == v,
        _ => tv matches TypedValue::Str(s) && s@ == v,
    }
}

/// Reads the text `v` as a value of type `k`.
pub fn typed_value(k: ParamType, v: &Vec<char>) -> (r: Option<TypedValue>)
    ensures
        r is Some <==> value_ok(k, v@),
        r matches Some(tv) ==> value_is(tv, k, v@),
{
    match k {
        ParamType::Int => match parse_i64(v) {
            Some(n) => Some(TypedValue::Int(n)),
            None => if integer_text(v) {
                Some(TypedValue::BigInt(string_of(v)))
            } else {
                None
            },
        },
        ParamType::Float => if float_text(v) {
            Some(TypedValue::Float(FloatTerm::Text(string_of(v))))
        } else {
            None
        },
        _ => Some(TypedValue::Str(string_of(v))),
    }
}

/// The parameter map has one entry per specification, in declaration order,
/// each named as its specification and read from the matching capture.
pub open spec fn params_are(
    params: Seq<(String, TypedValue)>,
    specs: Seq<ParamSpec>,
    caps: Seq<Seq<char>>,
) -> bool {
    &&& params.len() == specs.len()
    &&& forall|i: int|
        0 <= i < specs.len() ==> (#[trigger] params[i]).0 == specs[i].name && value_is(
            params[i].1,
            specs[i].kind,
            caps[i],
        )
}

/// Types every capture by its specification. Fails on the first capture
/// that does not read as its declared type.
pub fn extract_params(specs: &Vec<ParamSpec>, caps: &Vec<Vec<char>>) -> (r: Result<
    Vec<(String, TypedValue)>,
    ParamError,
>)
    requires
        specs@.len() == caps@.len(),
    ensures
        r is Ok <==> forall|i: int|
            0 <= i < specs@.len() ==> value_ok(#[trigger] specs@[i].kind, caps@[i]@),
        r matches Ok(params) ==> params_are(params@, specs@, views(caps@)),
        r matches Err(e) ==> exists|i: int|
            0 <= i < specs@.len() && !value_ok(#[trigger] specs@[i].kind, caps@[i]@) && (forall|
                j: int,
            | 0 <= j < i ==> value_ok(#[trigger] specs@[j].kind, caps@[j]@)) && e.name
                == specs@[i].name && e.expected == specs@[i].kind && e.got@ == caps@[i]@,
{
    let mut params: Vec<(String, TypedValue)> = Vec::new();
    let mut i: usize = 0;
    while i < specs.len()
        invariant
            specs@.len() == caps@.len(),
            i <= specs@.len(),
            params@.len() == i,
            forall|j: int| 0 <= j < i ==> value_ok(#[trigger] specs@[j].kind, caps@[j]@),
            forall|j: int|
                0 <= j < i ==> (#[trigger] params@[j]).0 == specs@[j].name && value_is(
                    params@[j].1,
                    specs@[j].kind,
                    caps@[j]@,
                ),
        decreases specs@.len() - i,
    {
        let spec = &specs[i];
        match typed_value(spec.kind, &caps[i]) {
            Some(tv) => {
                params.push((spec.name.clone(), tv));
            },
            None => {
                return Err(
                    ParamError { name: spec.name.clone(), expected: spec.kind, got: string_of(&caps[i]) },
                );
            },
        }
        i = i + 1;
    }
    assert(params_are(params@, specs@, views(caps@)));
    Ok(params)
}

/// The text of a type name as it appears in error messages.
pub open spec fn type_word(k: ParamType) -> Seq<char> {
    match k {
        ParamType::Int => "int"@,
        ParamType::Float => "float"@,
        ParamType::Str => "string"@,
        ParamType::Path => "path"@,
    }
}

impl ParamError {
    /// `Parameter '<name>': expected <type>, got '<text>'`.
    pub fn message(&self) -> (r: String)
        ensures
            r@ == "Parameter '"@ + self.name@ + "': expected "@ + type_word(self.expected)
                + ", got '"@ + self.got@ + "'"@,
    {
        let mut m = String::from_str("Parameter '");
        m.append(self.name.as_str());
        m.append("': expected ");
        let word = match self.expected {
            ParamType::Int => "int",
            ParamType::Float => "float",
            ParamType::Str => "string",
            ParamType::Path => "path",
        };
        m.append(word);
        m.append(", got '");
        m.append(self.got.as_str());
        m.append("'");
        m
    }
}


/// The names of the placeholder pieces, in the order they stand.
pub open spec fn placeholder_names(parts: Seq<Seq<char>>) -> Seq<Seq<char>>
    decreases parts.len(),
{
    if parts.len() == 0 {
        Seq::empty()
    } else {
        let p = placeholder_names(parts.drop_last());
        if is_placeholder(parts.last()) {
            p.push(placeholder_name(parts.last()))
        } else {
            p
        }
    }
}

pub open spec fn names_agree(seg: Segment, s: Seq<char>) -> bool {
    match seg {
        Segment::Literal(_) => !is_placeholder(s),
        Segment::Capture(n, _) => is_placeholder(s) && n@ == placeholder_name(s),
    }
}

proof fn lemma_spec_names(segs: Seq<Segment>, parts: Seq<Seq<char>>)
    requires
        segs.len() == parts.len(),
        forall|i: int| 0 <= i < segs.len() ==> names_agree(#[trigger] segs[i], parts[i]),
    ensures
        specs_of(segs).len() == placeholder_names(parts).len(),
        forall|j: int|
            0 <= j < specs_of(segs).len() ==> (#[trigger] specs_of(segs)[j]).name@
                == placeholder_names(parts)[j],
    decreases segs.len(),
{
    if segs.len() > 0 {
        assert forall|i: int| 0 <= i < segs.len() - 1 implies names_agree(
            #[trigger] segs.drop_last()[i],
            parts.drop_last()[i],
        ) by {
            assert(names_agree(segs[i], parts[i]));
        }
        lemma_spec_names(segs.drop_last(), parts.drop_last());
        assert(names_agree(segs[segs.len() - 1], parts[parts.len() - 1]));
    }
}

/// Whenever a request path matches a compiled pattern and every captured
/// text reads as its declared type, the extracted parameters hold exactly
/// one entry per placeholder of the pattern text, named as the placeholders
/// and in the order in which they are declared.
pub proof fn lemma_one_param_per_placeholder(
    pattern: Seq<char>,
    cp: CompiledPattern,
    ps: Seq<Seq<char>>,
    params: Seq<(String, TypedValue)>,
)
    requires
        cp.compiled_from(pattern),
        path_matches(cp.segments@, ps),
        params_are(params, cp.specs@, captures_of(cp.segments@, ps, cp.segments@.len() as int)),
    ensures
        params.len() == placeholder_names(split_slash(pattern)).len(),
        forall|j: int|
            0 <= j < params.len() ==> (#[trigger] params[j]).0@ == placeholder_names(
                split_slash(pattern),
            )[j],
{
    let parts = split_slash(pattern);
    assert forall|i: int| 0 <= i < cp.segments@.len() implies names_agree(
        #[trigger] cp.segments@[i],
        parts[i],
    ) by {
        assert(crate::pattern::segment_compiled(cp.segments@[i], parts[i]));
    }
    lemma_spec_names(cp.segments@, parts);
    assert forall|j: int| 0 <= j < params.len() implies (#[trigger] params[j]).0@
        == placeholder_names(parts)[j] by {
        assert(params[j].0 == cp.specs@[j].name);
    }
}


/// The typed parameters that `path` gives for the route pattern `pattern`:
/// `None` when the path does not match, an error for the first parameter
/// that does not read as its type, else one entry per placeholder of the
/// pattern, named as the placeholders and in the order they are declared,
/// each read from the path segment that its placeholder stands over.
pub fn params_for(pattern: &str, path: &str) -> (r: Option<Result<Vec<(String, TypedValue)>, ParamError>>)
    ensures
        exists|cp: CompiledPattern|
            #[trigger] cp.compiled_from(pattern@) && cp.wf() && {
                let ps = split_slash(path@);
                let caps = captures_of(cp.segments@, ps, cp.segments@.len() as int);
                &&& (r is Some <==> path_matches(cp.segments@, ps))
                &&& (r matches Some(Ok(params)) ==> params_are(params@, cp.specs@, caps))
                &&& (r matches Some(res) ==> (res is Ok <==> forall|i: int|
                    0 <= i < cp.specs@.len() ==> value_ok(#[trigger] cp.specs@[i].kind, caps[i])))
            },
        r matches Some(Ok(params)) ==> params@.len() == placeholder_names(split_slash(pattern@)).len()
            && forall|j: int|
            0 <= j < params@.len() ==> (#[trigger] params@[j]).0@ == placeholder_names(
                split_slash(pattern@),
            )[j],
{
    let cp = compile_pattern(pattern);
    let pv = chars_of(path);
    let ps = split_on_slash(&pv);
    let r = match cp.match_pieces(&ps) {
        None => None,
        Some(caps) => {
            proof {
                crate::pattern::lemma_captures_count(cp.segments@, views(ps@));
            }
            let res = extract_params(&cp.specs, &caps);
            proof {
                if res is Ok {
                    lemma_one_param_per_placeholder(pattern@, cp, views(ps@), res->Ok_0@);
                }
                assert forall|i: int| 0 <= i < cp.specs@.len() implies views(caps@)[i]
                    == caps@[i]@ by {}
            }
            Some(res)
        },
    };
    assert(cp.compiled_from(pattern@));
    r
}

} // verus!
