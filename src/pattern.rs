//! Route patterns: compiling `<name>` / `<type:name>` placeholders and
//! matching request paths segment by segment.

use vstd::prelude::*;
use crate::text::{
    chars_eq, chars_of, lower_of, split_on_slash, split_slash, string_of, trim, trim_chars, views,
};
use crate::value::{type_of_token, ParamType};

verus! {

/// A placeholder's name and declared type, in declaration order.
#[derive(Debug)]
pub struct ParamSpec {
    pub name: String,
    pub kind: ParamType,
}

/// One '/'-separated piece of a compiled pattern.
#[derive(Debug)]
pub enum Segment {
    /// Matches exactly this text.
    Literal(String),
    /// Matches any one segment; as the last segment with `ParamType::Path`,
    /// the rest of the path.
    Capture(String, ParamType),
}

/// A route pattern after compilation.
#[derive(Debug)]
pub struct CompiledPattern {
    pub segments: Vec<Segment>,
    pub specs: Vec<ParamSpec>,
}

pub open spec fn is_placeholder(s: Seq<char>) -> bool {
    s.len() >= 2 && s[0] == '<' && s.last() == '>'
}

pub open spec fn inner_of(s: Seq<char>) -> Seq<char> {
    s.subrange(1, s.len() - 1)
}

/// `k` is the index of the first ':' in `t`, or `t.len()` when there is none.
pub open spec fn is_first_colon(t: Seq<char>, k: int) -> bool {
    &&& 0 <= k <= t.len()
    &&& k < t.len() ==> t[k] == ':'
    &&& forall|j: int| 0 <= j < k ==> t[j] != ':'
}

pub open spec fn colon_at(t: Seq<char>) -> int {
    choose|k: int| is_first_colon(t, k)
}

/// The name of a placeholder segment: what follows the first ':', or all
/// of it, without leading and trailing white space.
pub open spec fn placeholder_name(s: Seq<char>) -> Seq<char> {
    let t = inner_of(s);
    let k = colon_at(t);
    trim(
        if k < t.len() {
            t.skip(k + 1)
        } else {
            t
        },
    )
}

/// The declared type of a placeholder segment; `Str` when it has no type token.
pub open spec fn declared_type(s: Seq<char>) -> ParamType {
    let t = inner_of(s);
    let k = colon_at(t);
    if k < t.len() {
        type_of_token(lower_of(t.take(k)))
    } else {
        ParamType::Str
    }
}

/// `seg` is what the pattern text `s` compiles to.
pub open spec fn segment_compiled(seg: Segment, s: Seq<char>) -> bool {
    match seg {
        Segment::Literal(t) => !is_placeholder(s) && t@ == s,
        Segment::Capture(n, k) => is_placeholder(s) && n@ == placeholder_name(s) && k
            == declared_type(s),
    }
}

/// The parameter specifications that a list of segments declares, in order.
pub open spec fn specs_of(segs: Seq<Segment>) -> Seq<ParamSpec>
    decreases segs.len(),
{
    if segs.len() == 0 {
        Seq::empty()
    } else {
        let p = specs_of(segs.drop_last());
        match segs.last() {
            Segment::Literal(_) => p,
            Segment::Capture(n, k) => p.push(ParamSpec { name: n, kind: k }),
        }
    }
}

pub open spec fn is_rest(seg: Segment) -> bool {
    seg matches Segment::Capture(_, ParamType::Path)
}

impl CompiledPattern {
    /// Segments come from a '/'-split text, and the specifications list the
    /// captures in order.
    pub open spec fn wf(&self) -> bool {
        &&& self.segments@.len() >= 1
        &&& self.specs@ == specs_of(self.segments@)
    }

    /// `self` is the compilation of the pattern text `p`.
    pub open spec fn compiled_from(&self, p: Seq<char>) -> bool {
        let parts = split_slash(p);
        &&& self.segments@.len() == parts.len()
        &&& forall|i: int|
            0 <= i < parts.len() ==> segment_compiled(#[trigger] self.segments@[i], parts[i])
        &&& self.specs@ == specs_of(self.segments@)
    }
}

proof fn lemma_first_colon_unique(t: Seq<char>, k: int)
    requires
        is_first_colon(t, k),
    ensures
        colon_at(t) == k,
{
    let c = colon_at(t);
    assert(is_first_colon(t, c));
    if c < k {
        assert(t[c] == ':');
    } else if k < c {
        assert(t[k] == ':');
    }
}

/// Compiles one '/'-separated piece of a pattern.
fn compile_segment(s: &Vec<char>) -> (r: Segment)
    ensures
        segment_compiled(r, s@),
{
    let n = s.len();
    if !(n >= 2 && s[0] == '<' && s[n - 1] == '>') {
        return Segment::Literal(string_of(s));
    }
    let ghost t = inner_of(s@);
    // the first ':' inside the brackets
    let mut k: usize = 1;
    while k < n - 1 && s[k] != ':'
        invariant
            1 <= k <= n - 1,
            n == s@.len(),
            t == s@.subrange(1, n - 1),
            forall|j: int| 0 <= j < k - 1 ==> t[j] != ':',
        decreases n - k,
    {
        assert(t[k - 1] == s@[k as int]);
        k = k + 1;
    }
    proof {
        if k < n - 1 {
            assert(t[k - 1] == s@[k as int]);
        }
        lemma_first_colon_unique(t, k - 1);
    }
    let mut name: Vec<char> = Vec::new();
    let mut i: usize = if k < n - 1 { k + 1 } else { 1 };
    let ghost from = i;
    while i < n - 1
        invariant
            from <= i <= n - 1,
            n == s@.len(),
            name@ == s@.subrange(from as int, i as int),
        decreases n - i,
    {
        name.push(s[i]);
        i = i + 1;
    }
    let declared = if k < n - 1 {
        let mut token: Vec<char> = Vec::new();
        let mut j: usize = 1;
        while j < k
            invariant
                1 <= j <= k,
                k < n,
                n == s@.len(),
                token@ == s@.subrange(1, j as int),
            decreases k - j,
        {
            token.push(s[j]);
            j = j + 1;
        }
        let ts = string_of(&token);
        assert(t.take(k - 1) =~= token@);
        ParamType::from_str(ts.as_str())
    } else {
        ParamType::Str
    };
    proof {
        if k < n - 1 {
            assert(t.skip(k as int) =~= name@);
        } else {
            assert(t =~= name@);
        }
    }
    Segment::Capture(string_of(&trim_chars(&name)), declared)
}

/// Compiles a route pattern: each '/'-separated piece of the form `<name>`
/// or `<type:name>` becomes a capture, every other piece a literal.
pub fn compile_pattern(pattern: &str) -> (r: CompiledPattern)
    ensures
        r.compiled_from(pattern@),
        r.wf(),
{
    let chars = chars_of(pattern);
    let parts = split_on_slash(&chars);
    let ghost pv = split_slash(pattern@);
    proof {
        crate::text::lemma_split_nonempty(pattern@);
    }
    let mut segments: Vec<Segment> = Vec::new();
    let mut specs: Vec<ParamSpec> = Vec::new();
    let mut i: usize = 0;
    while i < parts.len()
        invariant
            views(parts@) == pv,
            pv == split_slash(pattern@),
            pv.len() >= 1,
            i <= parts@.len(),
            segments@.len() == i,
            forall|j: int|
                0 <= j < i ==> segment_compiled(#[trigger] segments@[j], pv[j]),
            specs@ == specs_of(segments@),
        decreases parts@.len() - i,
    {
        assert(views(parts@)[i as int] == parts@[i as int]@);
        let seg = compile_segment(&parts[i]);
        let ghost before = segments@;
        match &seg {
            Segment::Capture(name, kind) => {
                specs.push(ParamSpec { name: name.clone(), kind: *kind });
            },
            Segment::Literal(_) => {},
        }
        segments.push(seg);
        assert(segments@.drop_last() =~= before);
        i = i + 1;
    }
    CompiledPattern { segments, specs }
}


// ---------------------------------------------------------------------
// Matching
// ---------------------------------------------------------------------

pub open spec fn seg_matches(seg: Segment, s: Seq<char>) -> bool {
    match seg {
        Segment::Literal(t) => t@ == s,
        Segment::Capture(_, _) => true,
    }
}

/// The pieces joined back with '/'.
pub open spec fn join_slash(ps: Seq<Seq<char>>) -> Seq<char>
    decreases ps.len(),
{
    if ps.len() == 0 {
        Seq::empty()
    } else if ps.len() == 1 {
        ps[0]
    } else {
        join_slash(ps.drop_last()) + seq!['/'] + ps.last()
    }
}

/// Whether the path pieces `ps` match the segments: piece for piece, except
/// that a final catch-all takes one or more pieces.
pub open spec fn path_matches(segs: Seq<Segment>, ps: Seq<Seq<char>>) -> bool {
    if segs.len() > 0 && is_rest(segs.last()) {
        &&& ps.len() >= segs.len()
        &&& forall|i: int| 0 <= i < segs.len() - 1 ==> seg_matches(#[trigger] segs[i], ps[i])
    } else {
        &&& ps.len() == segs.len()
        &&& forall|i: int| 0 <= i < segs.len() ==> seg_matches(#[trigger] segs[i], ps[i])
    }
}

/// What segment `i` captures: its piece, or for a final catch-all the rest
/// of the pieces joined with '/'.
pub open spec fn captured(segs: Seq<Segment>, ps: Seq<Seq<char>>, i: int) -> Seq<char> {
    if i == segs.len() - 1 && is_rest(segs[i]) {
        join_slash(ps.skip(i))
    } else {
        ps[i]
    }
}

/// The texts captured by the first `n` segments, in order.
pub open spec fn captures_of(segs: Seq<Segment>, ps: Seq<Seq<char>>, n: int) -> Seq<Seq<char>>
    decreases n,
{
    if n <= 0 {
        Seq::empty()
    } else {
        let p = captures_of(segs, ps, n - 1);
        if segs[n - 1] is Capture {
            p.push(captured(segs, ps, n - 1))
        } else {
            p
        }
    }
}

proof fn lemma_captures_len(segs: Seq<Segment>, ps: Seq<Seq<char>>, n: int)
    requires
        0 <= n <= segs.len(),
    ensures
        captures_of(segs, ps, n).len() == specs_of(segs.take(n)).len(),
    decreases n,
{
    if n > 0 {
        lemma_captures_len(segs, ps, n - 1);
        assert(segs.take(n).drop_last() =~= segs.take(n - 1));
    }
}

/// The number of captures equals the number of declared parameters.
pub proof fn lemma_captures_count(segs: Seq<Segment>, ps: Seq<Seq<char>>)
    ensures
        captures_of(segs, ps, segs.len() as int).len() == specs_of(segs).len(),
{
    lemma_captures_len(segs, ps, segs.len() as int);
    assert(segs.take(segs.len() as int) =~= segs);
}

/// The pieces `ps[from..]` joined with '/'.
fn join_from(ps: &Vec<Vec<char>>, from: usize) -> (r: Vec<char>)
    requires
        from < ps@.len(),
    ensures
        r@ == join_slash(views(ps@).skip(from as int)),
{
    let ghost v = views(ps@);
    let mut out: Vec<char> = Vec::new();
    let mut i: usize = from;
    while i < ps.len()
        invariant
            from <= i <= ps@.len(),
            v == views(ps@),
            i == from ==> out@.len() == 0,
            i > from ==> out@ == join_slash(v.subrange(from as int, i as int)),
        decreases ps@.len() - i,
    {
        if i > from {
            out.push('/');
        }
        let piece = &ps[i];
        let mut j: usize = 0;
        let ghost start = out@;
        while j < piece.len()
            invariant
                j <= piece@.len(),
                out@ == start + piece@.take(j as int),
            decreases piece@.len() - j,
        {
            out.push(piece[j]);
            assert(piece@.take(j as int + 1) =~= piece@.take(j as int).push(piece@[j as int]));
            j = j + 1;
        }
        proof {
            assert(piece@.take(piece@.len() as int) =~= piece@);
            assert(v[i as int] == piece@);
            let sub = v.subrange(from as int, i as int + 1);
            if i > from {
                assert(sub.drop_last() =~= v.subrange(from as int, i as int));
            } else {
                assert(out@ =~= sub[0]);
            }
        }
        i = i + 1;
    }
    assert(v.subrange(from as int, ps@.len() as int) =~= v.skip(from as int));
    out
}

impl CompiledPattern {
    /// Matches the path pieces against the pattern and returns the captured
    /// texts in declaration order.
    pub fn match_pieces(&self, ps: &Vec<Vec<char>>) -> (r: Option<Vec<Vec<char>>>)
        requires
            self.wf(),
        ensures
            r is Some <==> path_matches(self.segments@, views(ps@)),
            r matches Some(c) ==> views(c@) == captures_of(
                self.segments@,
                views(ps@),
                self.segments@.len() as int,
            ),
    {
        let ghost segs = self.segments@;
        let ghost v = views(ps@);
        let n = self.segments.len();
        let rest = match &self.segments[n - 1] {
            Segment::Capture(_, ParamType::Path) => true,
            _ => false,
        };
        if rest {
            if ps.len() < n {
                return None;
            }
        } else if ps.len() != n {
            return None;
        }
        let mut caps: Vec<Vec<char>> = Vec::new();
        let mut i: usize = 0;
        while i < n
            invariant
                n == segs.len(),
                segs == self.segments@,
                v == views(ps@),
                self.wf(),
                rest == is_rest(segs.last()),
                rest ==> ps@.len() >= n,
                !rest ==> ps@.len() == n,
                i <= n,
                forall|j: int| 0 <= j < i && !(j == n - 1 && rest) ==> seg_matches(#[trigger] segs[j], v[j]),
                views(caps@) == captures_of(segs, v, i as int),
            decreases n - i,
        {
            match &self.segments[i] {
                Segment::Literal(t) => {
                    let tv = chars_of(t.as_str());
                    if !chars_eq(&tv, &ps[i]) {
                        assert(!seg_matches(segs[i as int], v[i as int]));
                        return None;
                    }
                },
                Segment::Capture(_, kind) => {
                    let ghost before = views(caps@);
                    if i + 1 == n && rest {
                        let joined = join_from(ps, i);
                        caps.push(joined);
                    } else {
                        let piece = ps[i].clone();
                        caps.push(piece);
                    }
                    assert(views(caps@) =~= before.push(captured(segs, v, i as int)));
                },
            }
            i = i + 1;
        }
        Some(caps)
    }
}

} // verus!
