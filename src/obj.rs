//! The mesh text parser: one forward pass over the lines, accumulating
//! positions, texture coordinates, normals and triangle indices.

use vstd::prelude::*;

use crate::lex::{
    face_ref, field_len, float_literal, is_float_literal, parse_face_ref, split_lines,
    split_tokens, text_lines, tokens, u16_value, views,
};

verus! {

/// Most vertices a mesh may hold: every index must fit in 16 bits.
pub const MAX_VERTICES: usize = 65536;

/// The raw arrays of a mesh, with each number kept as the text of its token.
pub struct MeshView {
    pub positions: Seq<Seq<u8>>,
    pub texcoords: Seq<Seq<u8>>,
    pub normals: Seq<Seq<u8>>,
    pub mesh: Seq<u16>,
}

/// Why a parse stops: a malformed line (by zero-based line index), or one
/// vertex too many.
pub enum ParseFailure {
    Invalid(int),
    TooManyVertices,
}

pub open spec fn empty_mesh() -> MeshView {
    MeshView { positions: seq![], texcoords: seq![], normals: seq![], mesh: seq![] }
}

/// The three numbers after the directive are float literals.
pub open spec fn three_floats(t: Seq<Seq<u8>>) -> bool {
    t.len() >= 4 && float_literal(t[1]) && float_literal(t[2]) && float_literal(t[3])
}

/// The three vertex references after the directive are valid.
pub open spec fn three_refs(t: Seq<Seq<u8>>) -> bool {
    t.len() >= 4 && face_ref(t[1]) is Some && face_ref(t[2]) is Some && face_ref(t[3]) is Some
}

/// What one line does to the mesh: none when the line is malformed.
pub open spec fn line_step(m: MeshView, l: Seq<u8>) -> Option<MeshView> {
    let t = tokens(l);
    if t.len() == 0 || (t[0].len() > 0 && t[0][0] == 35) {
        Some(m)
    } else if t[0] == seq![118u8] {
        if three_floats(t) {
            Some(MeshView { positions: m.positions + t.subrange(1, 4), ..m })
        } else {
            None
        }
    } else if t[0] == seq![118u8, 116u8] {
        if t.len() >= 3 && float_literal(t[1]) && float_literal(t[2]) {
            Some(MeshView { texcoords: m.texcoords + t.subrange(1, 3), ..m })
        } else {
            None
        }
    } else if t[0] == seq![118u8, 110u8] {
        if three_floats(t) {
            Some(MeshView { normals: m.normals + t.subrange(1, 4), ..m })
        } else {
            None
        }
    } else if t[0] == seq![102u8] {
        if three_refs(t) {
            Some(
                MeshView {
                    mesh: m.mesh + seq![face_ref(t[1])->0, face_ref(t[2])->0, face_ref(t[3])->0],
                    ..m
                },
            )
        } else {
            None
        }
    } else {
        Some(m)
    }
}

/// The outcome of parsing the given lines in order: the first malformed line
/// or the first excess vertex ends it.
pub open spec fn parse_lines(ls: Seq<Seq<u8>>) -> Result<MeshView, ParseFailure>
    decreases ls.len(),
{
    if ls.len() == 0 {
        Ok(empty_mesh())
    } else {
        match parse_lines(ls.drop_last()) {
            Err(e) => Err(e),
            Ok(m) => match line_step(m, ls.last()) {
                None => Err(ParseFailure::Invalid(ls.len() - 1)),
                Some(m2) => if m2.positions.len() > 3 * MAX_VERTICES {
                    Err(ParseFailure::TooManyVertices)
                } else {
                    Ok(m2)
                },
            },
        }
    }
}

/// The raw arrays of a parsed mesh. Each number is kept as the text of its
/// token, which is a valid floating-point literal; face indices are
/// zero-based.
#[derive(Debug)]
pub struct Obj {
    /// vertex x,y,z
    pub vertices: Vec<Vec<u8>>,
    /// triangle indices, three per face
    pub mesh: Vec<u16>,
    /// texture u,v
    pub uvs: Vec<Vec<u8>>,
    /// vertex normals, not normalized
    pub normals: Vec<Vec<u8>>,
}

impl View for Obj {
    type V = MeshView;

    open spec fn view(&self) -> MeshView {
        MeshView {
            positions: views(self.vertices@),
            texcoords: views(self.uvs@),
            normals: views(self.normals@),
            mesh: self.mesh@,
        }
    }
}

#[derive(Debug)]
pub enum Error {
    /// A malformed line, with its one-based number and its text.
    Invalid { line_number: usize, line: Vec<u8> },
    /// More than 65536 vertices.
    TooManyVertices,
}

/// The failure that an error stands for.
pub open spec fn failure_of(e: Error) -> ParseFailure {
    match e {
        Error::Invalid { line_number, .. } => ParseFailure::Invalid(line_number - 1),
        Error::TooManyVertices => ParseFailure::TooManyVertices,
    }
}

fn copy_bytes(v: &Vec<u8>) -> (r: Vec<u8>)
    ensures
        r@ == v@,
{
    let mut r: Vec<u8> = Vec::new();
    let mut i: usize = 0;
    while i < v.len()
        invariant
            i <= v@.len(),
            r@ == v@.take(i as int),
        decreases v.len() - i,
    {
        r.push(v[i]);
        i += 1;
        assert(r@ =~= v@.take(i as int));
    }
    assert(v@.take(i as int) =~= v@);
    r
}

/// Appends copies of `toks[from..to]` to `dst`.
fn append_tokens(dst: &mut Vec<Vec<u8>>, toks: &Vec<Vec<u8>>, from: usize, to: usize)
    requires
        from <= to <= toks@.len(),
    ensures
        views(final(dst)@) == views(old(dst)@) + views(toks@).subrange(from as int, to as int),
{
    let mut i = from;
    while i < to
        invariant
            from <= i <= to <= toks@.len(),
            views(dst@) == views(old(dst)@) + views(toks@).subrange(from as int, i as int),
        decreases to - i,
    {
        let c = copy_bytes(&toks[i]);
        let ghost before = views(dst@);
        dst.push(c);
        assert(views(dst@) =~= before.push(toks@[i as int]@));
        assert(views(dst@) =~= views(old(dst)@) + views(toks@).subrange(from as int, i + 1));
        i += 1;
    }
}

fn is_word1(t: &Vec<u8>, a: u8) -> (r: bool)
    ensures
        r == (t@ == seq![a]),
{
    let r = t.len() == 1 && t[0] == a;
    assert(r ==> t@ =~= seq![a]);
    r
}

fn is_word2(t: &Vec<u8>, a: u8, b: u8) -> (r: bool)
    ensures
        r == (t@ == seq![a, b]),
{
    let r = t.len() == 2 && t[0] == a && t[1] == b;
    assert(r ==> t@ =~= seq![a, b]);
    r
}

impl Obj {
    fn empty() -> (r: Obj)
        ensures
            r@ == empty_mesh(),
    {
        let r = Obj { vertices: Vec::new(), mesh: Vec::new(), uvs: Vec::new(), normals: Vec::new() };
        assert(r@.positions =~= seq![]);
        assert(r@.texcoords =~= seq![]);
        assert(r@.normals =~= seq![]);
        assert(r@.mesh =~= seq![]);
        r
    }

    /// Applies one line; false when the line is malformed.
    fn take_line(&mut self, line: &Vec<u8>) -> (ok: bool)
        ensures
            ok == line_step(old(self)@, line@) is Some,
            ok ==> line_step(old(self)@, line@) == Some(final(self)@),
    {
        let t = split_tokens(line.as_slice());
        let ghost tv = tokens(line@);
        assert(views(t@) == tv);
        if t.len() == 0 {
            return true;
        }
        assert(t@[0]@ == tv[0]);
        if t[0].len() > 0 && t[0][0] == 35 {
            return true;
        }
        if t.len() >= 2 {
            assert(t@[1]@ == tv[1]);
        }
        if t.len() >= 3 {
            assert(t@[2]@ == tv[2]);
        }
        if t.len() >= 4 {
            assert(t@[3]@ == tv[3]);
        }
        if is_word1(&t[0], 118) {
            if t.len() < 4 || !is_float_literal(t[1].as_slice()) || !is_float_literal(
                t[2].as_slice(),
            ) || !is_float_literal(t[3].as_slice()) {
                return false;
            }
            append_tokens(&mut self.vertices, &t, 1, 4);
            true
        } else if is_word2(&t[0], 118, 116) {
            if t.len() < 3 || !is_float_literal(t[1].as_slice()) || !is_float_literal(
                t[2].as_slice(),
            ) {
                return false;
            }
            append_tokens(&mut self.uvs, &t, 1, 3);
            true
        } else if is_word2(&t[0], 118, 110) {
            if t.len() < 4 || !is_float_literal(t[1].as_slice()) || !is_float_literal(
                t[2].as_slice(),
            ) || !is_float_literal(t[3].as_slice()) {
                return false;
            }
            append_tokens(&mut self.normals, &t, 1, 4);
            true
        } else if is_word1(&t[0], 102) {
            if t.len() < 4 {
                return false;
            }
            let a = parse_face_ref(t[1].as_slice());
            let b = parse_face_ref(t[2].as_slice());
            let c = parse_face_ref(t[3].as_slice());
            match (a, b, c) {
                (Some(a), Some(b), Some(c)) => {
                    let ghost before = self.mesh@;
                    self.mesh.push(a);
                    self.mesh.push(b);
                    self.mesh.push(c);
                    assert(self.mesh@ =~= before + seq![a, b, c]);
                    true
                },
                _ => false,
            }
        } else {
            true
        }
    }

    /// Parses the lines of a mesh text. The first malformed line (a directive
    /// with too few values, a number that does not parse, a zero or
    /// out-of-range face index) fails the parse with its number and text;
    /// more than 65536 vertices fail it as soon as the excess vertex is read.
    pub fn new(lines: &[Vec<u8>]) -> (r: Result<Obj, Error>)
        ensures
            r matches Ok(o) ==> parse_lines(views(lines@)) == Ok::<MeshView, ParseFailure>(o@),
            r matches Err(e) ==> parse_lines(views(lines@)) == Err::<MeshView, ParseFailure>(
                failure_of(e),
            ),
            r matches Err(Error::Invalid { line_number, line }) ==> {
                &&& 1 <= line_number <= lines@.len()
                &&& line@ == lines@[line_number - 1]@
            },
            parse_lines(views(lines@)) is Ok <==> r is Ok,
    {
        let mut obj = Obj::empty();
        let mut k: usize = 0;
        assert(views(lines@).take(0) =~= seq![]);
        while k < lines.len()
            invariant
                k <= lines@.len(),
                parse_lines(views(lines@).take(k as int)) == Ok::<MeshView, ParseFailure>(obj@),
            decreases lines.len() - k,
        {
            let ghost prefix = views(lines@).take(k + 1);
            assert(prefix.drop_last() =~= views(lines@).take(k as int));
            assert(prefix.last() == lines@[k as int]@);
            let ok = obj.take_line(&lines[k]);
            if !ok {
                let line = copy_bytes(&lines[k]);
                proof {
                    lemma_failure_stays(views(lines@), k + 1);
                }
                return Err(Error::Invalid { line_number: k + 1, line });
            }
            if obj.vertices.len() > 3 * MAX_VERTICES {
                proof {
                    lemma_failure_stays(views(lines@), k + 1);
                }
                return Err(Error::TooManyVertices);
            }
            k += 1;
        }
        assert(views(lines@).take(k as int) =~= views(lines@));
        Ok(obj)
    }
}

impl Obj {
    /// Parses a whole mesh text, split into lines as `text_lines` says.
    pub fn parse(text: &[u8]) -> (r: Result<Obj, Error>)
        ensures
            r matches Ok(o) ==> parse_lines(text_lines(text@)) == Ok::<MeshView, ParseFailure>(
                o@,
            ),
            r matches Err(e) ==> parse_lines(text_lines(text@)) == Err::<MeshView, ParseFailure>(
                failure_of(e),
            ),
            r matches Err(Error::Invalid { line_number, line }) ==> {
                &&& 1 <= line_number <= text_lines(text@).len()
                &&& line@ == text_lines(text@)[line_number - 1]
            },
            parse_lines(text_lines(text@)) is Ok <==> r is Ok,
    {
        let lines = split_lines(text);
        let r = Obj::new(lines.as_slice());
        proof {
            if let Err(Error::Invalid { line_number, .. }) = &r {
                assert(views(lines@)[line_number - 1] == lines@[line_number - 1]@);
            }
        }
        r
    }
}

/// Once a prefix of the lines fails, the whole parse fails the same way.
proof fn lemma_failure_stays(ls: Seq<Seq<u8>>, n: int)
    requires
        0 <= n <= ls.len(),
        parse_lines(ls.take(n)) is Err,
    ensures
        parse_lines(ls) == parse_lines(ls.take(n)),
    decreases ls.len() - n,
{
    if n < ls.len() {
        let p = ls.take(n + 1);
        assert(p.drop_last() =~= ls.take(n));
        lemma_failure_stays(ls, n + 1);
    } else {
        assert(ls.take(n) =~= ls);
    }
}

/// The first malformed line ends the parse, and the failure names that
/// line: no mesh comes out.
pub proof fn lemma_first_malformed_line(ls: Seq<Seq<u8>>, k: int)
    requires
        0 <= k < ls.len(),
        parse_lines(ls.take(k)) is Ok,
        line_step(parse_lines(ls.take(k))->Ok_0, ls[k]) is None,
    ensures
        parse_lines(ls) == Err::<MeshView, ParseFailure>(ParseFailure::Invalid(k)),
{
    let p = ls.take(k + 1);
    assert(p.drop_last() =~= ls.take(k));
    lemma_failure_stays(ls, k + 1);
}

/// A vertex line with a token among its three numbers that is not a
/// floating-point literal is malformed.
pub proof fn lemma_bad_number_malformed(m: MeshView, l: Seq<u8>, i: int)
    requires
        tokens(l).len() > 0,
        tokens(l)[0] == seq![118u8],
        1 <= i <= 3,
        i < tokens(l).len(),
        !float_literal(tokens(l)[i]),
    ensures
        line_step(m, l) is None,
{
}

/// A face line whose vertex reference has a first field that reads as
/// zero is malformed.
pub proof fn lemma_zero_index_malformed(m: MeshView, l: Seq<u8>, i: int)
    requires
        tokens(l).len() > 0,
        tokens(l)[0] == seq![102u8],
        1 <= i <= 3,
        i < tokens(l).len(),
        u16_value(tokens(l)[i].take(field_len(tokens(l)[i]) as int)) == Some(0nat),
    ensures
        line_step(m, l) is None,
{
}

/// A face reference whose first field reads as the one-based index `n > 0`
/// stands for vertex `n - 1`.
pub proof fn lemma_face_index_shift(t: Seq<u8>, n: nat)
    requires
        u16_value(t.take(field_len(t) as int)) == Some(n),
        n > 0,
    ensures
        face_ref(t) == Some((n - 1) as u16),
        (n - 1) < MAX_VERTICES,
{
}

/// Every successful parse holds at most 65536 vertices, three numbers each.
pub proof fn lemma_vertex_capacity(ls: Seq<Seq<u8>>)
    requires
        parse_lines(ls) is Ok,
    ensures
        parse_lines(ls)->Ok_0.positions.len() <= 3 * MAX_VERTICES,
    decreases ls.len(),
{
    if ls.len() > 0 {
        lemma_vertex_capacity(ls.drop_last());
    }
}

/// Each accepted line adds whole vertices, coordinate pairs, normals and
/// triangles: the arrays keep lengths that are multiples of 3, 2, 3 and 3.
pub proof fn lemma_whole_records(ls: Seq<Seq<u8>>)
    requires
        parse_lines(ls) is Ok,
    ensures
        parse_lines(ls)->Ok_0.positions.len() % 3 == 0,
        parse_lines(ls)->Ok_0.texcoords.len() % 2 == 0,
        parse_lines(ls)->Ok_0.normals.len() % 3 == 0,
        parse_lines(ls)->Ok_0.mesh.len() % 3 == 0,
    decreases ls.len(),
{
    if ls.len() > 0 {
        lemma_whole_records(ls.drop_last());
    }
}

} // verus!
