use vstd::prelude::*;

use crate::color::Color;
use crate::colorformat::{Any, ColorFormat};
use crate::document::{Document, Unchecked};
use crate::face::{face_view, FaceRef};
use crate::number::{bounded_unsigned, float_text, is_float_text, parse_unsigned};
use crate::text::{chars_of, split_words, views, words, words_from, OffLines};
use crate::vertex::{vertex_view, Vertex, VertexRef};

verus! {

/// What went wrong in a parse.
#[derive(Debug, Clone, Copy, PartialEq, Eq, Structural, Hash)]
pub enum ErrorKind {
    /// The text holds no content at all.
    Empty,
    /// A line that was expected is absent.
    Missing,
    /// Content where none may stand.
    Invalid,
    InvalidMagic,
    InvalidCounts,
    InvalidVertex,
    InvalidColor,
    InvalidFace,
    LimitExceeded,
}

/// A parse error: its kind, the 0-based index of the line it was found on,
/// and a description where there is one.
#[derive(Debug, Clone, PartialEq, Eq, Hash)]
pub struct Error {
    kind: ErrorKind,
    line_index: usize,
    message: Option<String>,
}

impl Error {
    pub closed spec fn spec_kind(&self) -> ErrorKind {
        self.kind
    }

    pub closed spec fn spec_line_index(&self) -> usize {
        self.line_index
    }

    /// The text of the description, if there is one.
    pub closed spec fn spec_message(&self) -> Option<Seq<char>> {
        match self.message {
            Some(m) => Some(m@),
            None => None,
        }
    }

    pub fn new(kind: ErrorKind, line_index: usize, message: Option<String>) -> (r: Self)
        ensures
            r.spec_kind() == kind,
            r.spec_line_index() == line_index,
            r.spec_message() == match message {
                Some(m) => Some(m@),
                None => None::<Seq<char>>,
            },
    {
        Error { kind, line_index, message }
    }

    pub fn with_message(kind: ErrorKind, line_index: usize, message: &str) -> (r: Self)
        ensures
            r.spec_kind() == kind,
            r.spec_line_index() == line_index,
            r.spec_message() == Some(message@),
    {
        Error { kind, line_index, message: Some(message.to_owned()) }
    }

    pub fn without_message(kind: ErrorKind, line_index: usize) -> (r: Self)
        ensures
            r.spec_kind() == kind,
            r.spec_line_index() == line_index,
            r.spec_message() is None,
    {
        Error { kind, line_index, message: None }
    }

    pub fn kind(&self) -> (r: ErrorKind)
        ensures
            r == self.spec_kind(),
    {
        self.kind
    }

    pub fn line_index(&self) -> (r: usize)
        ensures
            r == self.spec_line_index(),
    {
        self.line_index
    }

    pub fn message(&self) -> (r: &Option<String>)
        ensures
            match r {
                Some(m) => self.spec_message() == Some(m@),
                None => self.spec_message() is None,
            },
    {
        &self.message
    }
}

/// The largest sizes a parse accepts.
#[derive(Debug, Clone, Copy, PartialEq, Eq, Structural, Hash)]
pub struct Limits {
    pub vertex_count: usize,
    pub face_count: usize,
    pub face_vertex_count: usize,
}

impl Default for Limits {
    fn default() -> (r: Self)
        ensures
            r == (Limits { vertex_count: 2048, face_count: 4096, face_vertex_count: 128 }),
    {
        Limits { vertex_count: 2048, face_count: 4096, face_vertex_count: 128 }
    }
}

/// The color format and the limits of a parse.
#[derive(Debug, Clone, Copy)]
pub struct ParserOptions<C> {
    pub color_format: C,
    pub limits: Limits,
}

impl Default for ParserOptions<Any> {
    fn default() -> (r: Self)
        ensures
            r.limits == (Limits { vertex_count: 2048, face_count: 4096, face_vertex_count: 128 }),
    {
        ParserOptions { color_format: Any, limits: Limits::default() }
    }
}

/// A logical line: its 0-based line index and its content.
pub type LineModel = (int, Seq<char>);

/// The outcome of a parse step: a value, or the kind and line index of the
/// error.
pub type Step<T> = Result<T, (ErrorKind, int)>;

/// The model of a parsed document: its vertices, its faces and its edge
/// count.
pub type DocModel = (Seq<(Seq<char>, Seq<char>, Seq<char>)>, Seq<(Seq<int>, Option<Color>)>, Option<nat>);

pub open spec fn starts_with_magic(l: Seq<char>) -> bool {
    l.len() >= 3 && l[0] == 'O' && l[1] == 'F' && l[2] == 'F'
}

/// How many lines the optional magic line takes.
pub open spec fn magic_step(ls: Seq<LineModel>) -> Step<nat> {
    if ls.len() == 0 {
        Err((ErrorKind::Empty, 0))
    } else if starts_with_magic(ls[0].1) {
        if ls[0].1.len() == 3 {
            Ok(1)
        } else {
            Err((ErrorKind::InvalidMagic, ls[0].0))
        }
    } else {
        Ok(0)
    }
}

/// A count, as `str::parse::<usize>` reads it.
pub open spec fn count_of(w: Seq<char>) -> Option<nat> {
    bounded_unsigned(w, usize::MAX as int)
}

/// The counts line: vertex count, face count and optional edge count. At
/// most four words are read.
pub open spec fn counts_of(l: LineModel) -> Step<(nat, nat, Option<nat>)> {
    let ws = words(l.1);
    let k = if ws.len() < 4 {
        ws.len()
    } else {
        4
    };
    if exists|i: int| 0 <= i < k && (#[trigger] count_of(ws[i])) is None {
        Err((ErrorKind::InvalidCounts, l.0))
    } else if k == 2 {
        Ok((count_of(ws[0])->0, count_of(ws[1])->0, None))
    } else if k == 3 {
        Ok((count_of(ws[0])->0, count_of(ws[1])->0, Some(count_of(ws[2])->0)))
    } else {
        Err((ErrorKind::InvalidCounts, l.0))
    }
}

pub open spec fn counts_step(ls: Seq<LineModel>) -> Step<(nat, nat, Option<nat>)> {
    if ls.len() == 0 {
        Err((ErrorKind::Missing, 0))
    } else {
        counts_of(ls[0])
    }
}

/// A vertex line: exactly three floating-point numbers. At most four words
/// are read.
pub open spec fn vertex_of(l: LineModel) -> Step<(Seq<char>, Seq<char>, Seq<char>)> {
    let ws = words(l.1);
    let k = if ws.len() < 4 {
        ws.len()
    } else {
        4
    };
    if exists|i: int| 0 <= i < k && !is_float_text(#[trigger] ws[i]) {
        Err((ErrorKind::InvalidVertex, l.0))
    } else if ws.len() == 3 {
        Ok((ws[0], ws[1], ws[2]))
    } else {
        Err((ErrorKind::InvalidVertex, l.0))
    }
}

/// The first line of `ls` read as a vertex.
pub open spec fn vertex_line(ls: Seq<LineModel>) -> Step<(Seq<char>, Seq<char>, Seq<char>)> {
    if ls.len() == 0 {
        Err((ErrorKind::Missing, 0))
    } else {
        vertex_of(ls[0])
    }
}

/// The first `n` lines of `ls` read as vertices.
pub open spec fn vertices_step(ls: Seq<LineModel>, n: nat) -> Step<
    Seq<(Seq<char>, Seq<char>, Seq<char>)>,
>
    decreases n,
{
    if n == 0 {
        Ok(Seq::empty())
    } else {
        match vertices_step(ls, (n - 1) as nat) {
            Err(e) => Err(e),
            Ok(vs) => match vertex_line(ls.skip(n - 1)) {
                Err(e) => Err(e),
                Ok(v) => Ok(vs.push(v)),
            },
        }
    }
}

/// Whether a word is a vertex index below `vertex_count`.
pub open spec fn index_ok(w: Seq<char>, vertex_count: nat) -> bool {
    count_of(w) matches Some(v) && v < vertex_count
}

/// A face line under color format `C`: the vertex-index count, that many
/// indices below `vertex_count`, then color words that `C` reads whole.
pub open spec fn face_of<C: ColorFormat>(l: LineModel, vertex_count: nat, limit: nat) -> Step<
    (Seq<int>, Option<Color>),
> {
    let ws = words(l.1);
    if ws.len() == 0 {
        Err((ErrorKind::InvalidFace, l.0))
    } else {
        match count_of(ws[0]) {
            None => Err((ErrorKind::InvalidFace, l.0)),
            Some(n) => if n > limit {
                Err((ErrorKind::LimitExceeded, l.0))
            } else if !(ws.len() >= 1 + n && forall|i: int|
                0 <= i < n ==> index_ok(#[trigger] ws[1 + i], vertex_count)) {
                Err((ErrorKind::InvalidFace, l.0))
            } else {
                let indices = Seq::new(n, |i: int| count_of(ws[1 + i])->0 as int);
                let rest = ws.skip(1 + n as int);
                if rest.len() == 0 {
                    Ok((indices, None))
                } else {
                    match C::decode(rest) {
                        None => Err((ErrorKind::InvalidColor, l.0)),
                        Some((c, k)) => if k < rest.len() {
                            Err((ErrorKind::Invalid, l.0))
                        } else {
                            Ok((indices, c))
                        },
                    }
                }
            },
        }
    }
}

/// The first line of `ls` read as a face.
pub open spec fn face_line<C: ColorFormat>(ls: Seq<LineModel>, vertex_count: nat, limit: nat) -> Step<
    (Seq<int>, Option<Color>),
> {
    if ls.len() == 0 {
        Err((ErrorKind::Missing, 0))
    } else {
        face_of::<C>(ls[0], vertex_count, limit)
    }
}

/// The first `n` lines of `ls` read as faces.
pub open spec fn faces_step<C: ColorFormat>(
    ls: Seq<LineModel>,
    n: nat,
    vertex_count: nat,
    limit: nat,
) -> Step<Seq<(Seq<int>, Option<Color>)>>
    decreases n,
{
    if n == 0 {
        Ok(Seq::empty())
    } else {
        match faces_step::<C>(ls, (n - 1) as nat, vertex_count, limit) {
            Err(e) => Err(e),
            Ok(fs) => match face_line::<C>(ls.skip(n - 1), vertex_count, limit) {
                Err(e) => Err(e),
                Ok(f) => Ok(fs.push(f)),
            },
        }
    }
}

/// A whole document read from its logical lines `ls`.
pub open spec fn parse_lines<C: ColorFormat>(ls: Seq<LineModel>, limits: Limits) -> Step<DocModel> {
    match magic_step(ls) {
        Err(e) => Err(e),
        Ok(m) => {
            let rest = ls.skip(m as int);
            match counts_step(rest) {
                Err(e) => Err(e),
                Ok((nv, nf, ne)) => if nv > limits.vertex_count {
                    Err((ErrorKind::LimitExceeded, rest[0].0))
                } else if nf > limits.face_count {
                    Err((ErrorKind::LimitExceeded, rest[0].0))
                } else {
                    let body = rest.skip(1);
                    match vertices_step(body, nv) {
                        Err(e) => Err(e),
                        Ok(vs) => match faces_step::<C>(
                            body.skip(nv as int),
                            nf,
                            nv,
                            limits.face_vertex_count as nat,
                        ) {
                            Err(e) => Err(e),
                            Ok(fs) => {
                                let tail = body.skip(nv + nf as int);
                                if tail.len() > 0 {
                                    Err((ErrorKind::Invalid, tail[0].0))
                                } else {
                                    Ok((vs, fs, ne))
                                }
                            },
                        },
                    }
                },
            }
        },
    }
}

/// Whether `r` failed with the description `t`.
pub open spec fn fails_with_message<T>(r: Result<T, Error>, t: Seq<char>) -> bool {
    r matches Err(x) && x.spec_message() == Some(t)
}

/// The description of a refused counts line whose first words are
/// numbers, but too few or too many: it reports how many were seen, at
/// most four.
pub open spec fn counts_message(ls: Seq<LineModel>) -> Option<Seq<char>> {
    if ls.len() == 0 {
        None
    } else {
        let ws = words(ls[0].1);
        let k = if ws.len() < 4 {
            ws.len()
        } else {
            4
        };
        if !(exists|i: int| 0 <= i < k && (#[trigger] count_of(ws[i])) is None) && k != 2 && k
            != 3 {
            Some(
                "Invalid number of counts given (expected: 2-3, actual: "@ + decimal(k as nat)
                    + ")"@,
            )
        } else {
            None
        }
    }
}

/// The description of a refused vertex line whose first words are numbers,
/// but not three: it reports how many were seen, at most four.
pub open spec fn vertex_message(ls: Seq<LineModel>) -> Option<Seq<char>> {
    if ls.len() == 0 {
        None
    } else {
        let ws = words(ls[0].1);
        let k = if ws.len() < 4 {
            ws.len()
        } else {
            4
        };
        if !(exists|i: int| 0 <= i < k && !is_float_text(#[trigger] ws[i])) && ws.len() != 3 {
            Some(
                "Invalid number of coordinates given (expected: 3, actual: "@ + decimal(k as nat)
                    + ")"@,
            )
        } else {
            None
        }
    }
}

/// The description of the first problem among the vertex indices `i` to
/// `n - 1` of a face's words `ws`, if any.
pub open spec fn index_problem(ws: Seq<Seq<char>>, i: nat, n: nat, vertex_count: nat) -> Option<
    Seq<char>,
>
    decreases n - i,
{
    if i >= n {
        None
    } else if 1 + i >= ws.len() {
        Some("Expected vertex index"@)
    } else {
        match count_of(ws[1 + i as int]) {
            None => Some("Failed to parse vertex index as number"@),
            Some(v) => if v >= vertex_count {
                Some(
                    "Vertex index out of bounds ("@ + decimal(v) + "/"@ + decimal(vertex_count)
                        + ")"@,
                )
            } else {
                index_problem(ws, i + 1, n, vertex_count)
            },
        }
    }
}

/// The description of a face line refused for its vertex-index count or
/// its indices: the limit and the count asked for, or the first bad index
/// with the bound.
pub open spec fn face_message(ls: Seq<LineModel>, vertex_count: nat, limit: nat) -> Option<
    Seq<char>,
> {
    if ls.len() == 0 {
        None
    } else {
        let ws = words(ls[0].1);
        if ws.len() == 0 {
            None
        } else {
            match count_of(ws[0]) {
                None => None,
                Some(n) => if n > limit {
                    Some(
                        "Vertex count of face exceeds limit (limit: "@ + decimal(limit)
                            + ", requested: "@ + decimal(n) + ")"@,
                    )
                } else {
                    index_problem(ws, 0, n, vertex_count)
                },
            }
        }
    }
}

/// The description of a parse refused for counts above the limits: the
/// limit, its configured value and the count asked for.
pub open spec fn counts_limit_message(ls: Seq<LineModel>, limits: Limits) -> Option<Seq<char>> {
    match magic_step(ls) {
        Err(_) => None,
        Ok(m) => match counts_step(ls.skip(m as int)) {
            Err(_) => None,
            Ok((nv, nf, _)) => if nv > limits.vertex_count {
                Some(
                    "Vertex count exceeds limit (limit: "@ + decimal(limits.vertex_count as nat)
                        + ", requested: "@ + decimal(nv) + ")"@,
                )
            } else if nf > limits.face_count {
                Some(
                    "Face count exceeds limit (limit: "@ + decimal(limits.face_count as nat)
                        + ", requested: "@ + decimal(nf) + ")"@,
                )
            } else {
                None
            },
        },
    }
}

/// Whether an error is the one a step describes.
pub open spec fn error_is(e: Error, m: (ErrorKind, int)) -> bool {
    e.spec_kind() == m.0 && e.spec_line_index() == m.1
}

/// The model of a document's content.
pub open spec fn doc_model(d: (Seq<Vertex>, Seq<FaceRef>, Option<u64>)) -> DocModel {
    (
        d.0.map_values(|v: Vertex| vertex_view(v)),
        d.1.map_values(|f: FaceRef| face_view(f)),
        match d.2 {
            Some(e) => Some(e as nat),
            None => None,
        },
    )
}

/// A parser over the logical lines of one text, with its options.
pub struct OffParser<C> {
    options: ParserOptions<C>,
    lines: OffLines,
}

impl<C> OffParser<C> {
    /// The logical lines not read yet.
    pub closed spec fn remaining(&self) -> Seq<LineModel> {
        self.lines@
    }

    pub closed spec fn limits(&self) -> Limits {
        self.options.limits
    }

    pub closed spec fn wf(&self) -> bool {
        self.lines.wf()
    }
}

impl OffParser<Any> {
    /// A parser for `s` with the default options: `Any` colors and the
    /// default limits.
    pub fn new(s: &str) -> (r: Self)
        ensures
            r.wf(),
            r.remaining() == crate::text::off_lines(s@),
            r.limits() == (Limits { vertex_count: 2048, face_count: 4096, face_vertex_count: 128 }),
    {
        OffParser { options: ParserOptions::default(), lines: OffLines::new(s) }
    }
}

impl<C: ColorFormat> OffParser<C> {
    pub fn new_with_options(s: &str, options: ParserOptions<C>) -> (r: Self)
        ensures
            r.wf(),
            r.remaining() == crate::text::off_lines(s@),
            r.limits() == options.limits,
    {
        OffParser { options, lines: OffLines::new(s) }
    }

    fn try_consume_magic(&mut self) -> (r: Result<(), Error>)
        requires
            old(self).wf(),
        ensures
            final(self).wf(),
            final(self).limits() == old(self).limits(),
            match magic_step(old(self).remaining()) {
                Ok(m) => r is Ok && final(self).remaining() == old(self).remaining().skip(m as int),
                Err(e) => r matches Err(x) && error_is(x, e),
            },
    {
        let (index, magic, exact) = match self.lines.peek() {
            None => {
                return Err(Error::without_message(ErrorKind::Empty, 0));
            },
            Some(p) => {
                let l = &p.1;
                (p.0, l.len() >= 3 && l[0] == 'O' && l[1] == 'F' && l[2] == 'F', l.len() == 3)
            },
        };
        if magic {
            if exact {
                let _ = self.lines.next();
                Ok(())
            } else {
                Err(Error::with_message(
                    ErrorKind::InvalidMagic,
                    index,
                    "Trailing characters after magic",
                ))
            }
        } else {
            assert(self.lines@.skip(0) =~= self.lines@);
            Ok(())
        }
    }

    #[verifier::loop_isolation(false)]
    fn try_consume_counts(&mut self) -> (r: Result<(usize, usize, Option<u64>), Error>)
        requires
            old(self).wf(),
        ensures
            final(self).wf(),
            final(self).limits() == old(self).limits(),
            match counts_step(old(self).remaining()) {
                Ok((nv, nf, ne)) => r matches Ok((v, f, e)) && v == nv && f == nf && match ne {
                    Some(c) => e matches Some(x) && x as nat == c,
                    None => e is None,
                } && final(self).remaining() == old(self).remaining().drop_first(),
                Err(e) => r matches Err(x) && error_is(x, e),
            },
            match counts_message(old(self).remaining()) {
                Some(t) => fails_with_message(r, t),
                None => true,
            },
    {
        let (index, line) = match self.lines.next() {
            None => {
                return Err(Error::with_message(
                    ErrorKind::Missing,
                    0,
                    "No counts for vertices, faces and edges present",
                ));
            },
            Some(p) => p,
        };
        let ws = split_words(&line);
        let ghost wv = words(line@);
        let k: usize = if ws.len() < 4 {
            ws.len()
        } else {
            4
        };
        let mut counts: Vec<usize> = Vec::new();
        let mut i: usize = 0;
        while i < k
            invariant
                i <= k <= ws.len(),
                k == (if wv.len() < 4 {
                    wv.len()
                } else {
                    4
                }),
                views(ws@) == wv,
                counts@.len() == i,
                forall|j: int| 0 <= j < i ==> count_of(wv[j]) == Some((#[trigger] counts@[j]) as nat),
            decreases k - i,
        {
            assert(views(ws@)[i as int] == ws@[i as int]@);
            match parse_unsigned(&ws[i], usize::MAX) {
                Some(v) => counts.push(v),
                None => {
                    assert(count_of(wv[i as int]) is None);
                    return Err(Error::with_message(
                        ErrorKind::InvalidCounts,
                        index,
                        "Failed to parse count as number",
                    ));
                },
            }
            i = i + 1;
        }
        assert(!exists|j: int| 0 <= j < k && (#[trigger] count_of(wv[j])) is None) by {
            assert forall|j: int| 0 <= j < k implies (#[trigger] count_of(wv[j])) is Some by {
                assert(count_of(wv[j]) == Some(counts@[j] as nat));
            }
        }
        if k == 2 {
            Ok((counts[0], counts[1], None))
        } else if k == 3 {
            Ok((counts[0], counts[1], Some(counts[2] as u64)))
        } else {
            Err(Error::new(
                ErrorKind::InvalidCounts,
                index,
                Some(
                    message_with_count(
                        "Invalid number of counts given (expected: 2-3, actual: ",
                        k,
                        ")",
                    ),
                ),
            ))
        }
    }

    #[verifier::loop_isolation(false)]
    fn try_consume_vertex(&mut self) -> (r: Result<Vertex, Error>)
        requires
            old(self).wf(),
        ensures
            final(self).wf(),
            final(self).limits() == old(self).limits(),
            match vertex_line(old(self).remaining()) {
                Ok(v) => r matches Ok(x) && vertex_view(x) == v && final(self).remaining()
                    == old(self).remaining().drop_first(),
                Err(e) => r matches Err(x) && error_is(x, e),
            },
            match vertex_message(old(self).remaining()) {
                Some(t) => fails_with_message(r, t),
                None => true,
            },
    {
        let (index, line) = match self.lines.next() {
            None => {
                return Err(Error::with_message(ErrorKind::Missing, 0, "Expected vertex"));
            },
            Some(p) => p,
        };
        let ws = split_words(&line);
        let ghost wv = words(line@);
        let k: usize = if ws.len() < 4 {
            ws.len()
        } else {
            4
        };
        let mut i: usize = 0;
        while i < k
            invariant
                i <= k <= ws.len(),
                k == (if wv.len() < 4 {
                    wv.len()
                } else {
                    4
                }),
                views(ws@) == wv,
                forall|j: int| 0 <= j < i ==> is_float_text(#[trigger] wv[j]),
            decreases k - i,
        {
            assert(views(ws@)[i as int] == ws@[i as int]@);
            if !float_text(&ws[i]) {
                return Err(Error::with_message(
                    ErrorKind::InvalidVertex,
                    index,
                    "Failed to parse coordinate as number",
                ));
            }
            i = i + 1;
        }
        if ws.len() != 3 {
            return Err(Error::new(
                ErrorKind::InvalidVertex,
                index,
                Some(
                    message_with_count(
                        "Invalid number of coordinates given (expected: 3, actual: ",
                        k,
                        ")",
                    ),
                ),
            ));
        }
        assert(views(ws@)[0] == ws@[0]@);
        assert(views(ws@)[1] == ws@[1]@);
        assert(views(ws@)[2] == ws@[2]@);
        Ok(Vertex { x: ws[0].clone(), y: ws[1].clone(), z: ws[2].clone() })
    }

    #[verifier::loop_isolation(false)]
    fn try_consume_vertices(&mut self, vertex_count: usize) -> (r: Result<Vec<Vertex>, Error>)
        requires
            old(self).wf(),
        ensures
            final(self).wf(),
            final(self).limits() == old(self).limits(),
            match vertices_step(old(self).remaining(), vertex_count as nat) {
                Ok(vs) => r matches Ok(x) && x@.map_values(|v: Vertex| vertex_view(v)) == vs
                    && vertex_count <= old(self).remaining().len() && final(self).remaining() == old(self).remaining().skip(vertex_count as int),
                Err(e) => r matches Err(x) && error_is(x, e),
            },
    {
        let ghost ls = self.remaining();
        let mut vertices: Vec<Vertex> = Vec::new();
        let mut i: usize = 0;
        assert(ls.skip(0) =~= ls);
        assert(vertices@.map_values(|v: Vertex| vertex_view(v)) =~= Seq::empty());
        while i < vertex_count
            invariant
                i <= vertex_count,
                self.wf(),
                self.limits() == old(self).limits(),
                ls == old(self).remaining(),
                i <= ls.len(),
                self.remaining() == ls.skip(i as int),
                vertices_step(ls, i as nat) == Step::Ok(
                    vertices@.map_values(|v: Vertex| vertex_view(v)),
                ),
            decreases vertex_count - i,
        {
            let v = self.try_consume_vertex();
            match v {
                Ok(v) => {
                    proof {
                        assert(ls.skip(i as int)[0] == ls[i as int]);
                    }
                    let ghost before = vertices@;
                    vertices.push(v);
                    proof {
                        assert(vertices@.map_values(|v: Vertex| vertex_view(v)) =~= before.map_values(
                            |v: Vertex| vertex_view(v),
                        ).push(vertex_view(v)));
                        assert(ls.skip(i as int).drop_first() =~= ls.skip(i + 1));
                    }
                },
                Err(e) => {
                    proof {
                        if i < ls.len() {
                            assert(ls.skip(i as int)[0] == ls[i as int]);
                        }
                        lemma_vertices_step_stops(ls, i as nat, vertex_count as nat);
                    }
                    return Err(e);
                },
            }
            i = i + 1;
        }
        Ok(vertices)
    }

    /// Reads the whole document: the optional magic line, the counts, which
    /// must be within the limits, the vertices, the faces, and nothing after.
    pub fn try_parse(self) -> (r: Result<Document<Unchecked>, Error>)
        requires
            self.wf(),
        ensures
            match parse_lines::<C>(self.remaining(), self.limits()) {
                Ok(m) => r matches Ok(d) && doc_model(d@) == m,
                Err(e) => r matches Err(x) && error_is(x, e),
            },
            match counts_limit_message(self.remaining(), self.limits()) {
                Some(t) => fails_with_message(r, t),
                None => true,
            },
    {
        let mut parser = self;
        let ghost ls = parser.remaining();
        let ghost limits = parser.limits();
        parser.try_consume_magic()?;
        let ghost m = magic_step(ls)->Ok_0;
        let counts_line = match parser.lines.peek() {
            Some(p) => p.0,
            None => 0,
        };
        let (vertex_count, face_count, edge_count) = parser.try_consume_counts()?;
        let ghost rest = ls.skip(m as int);
        if vertex_count > parser.options.limits.vertex_count {
            return Err(Error::new(
                ErrorKind::LimitExceeded,
                counts_line,
                Some(
                    message_with(
                        "Vertex count exceeds limit (limit: ",
                        parser.options.limits.vertex_count,
                        ", requested: ",
                        vertex_count,
                        ")",
                    ),
                ),
            ));
        }
        if face_count > parser.options.limits.face_count {
            return Err(Error::new(
                ErrorKind::LimitExceeded,
                counts_line,
                Some(
                    message_with(
                        "Face count exceeds limit (limit: ",
                        parser.options.limits.face_count,
                        ", requested: ",
                        face_count,
                        ")",
                    ),
                ),
            ));
        }
        let ghost body = rest.skip(1);
        assert(body =~= rest.drop_first());
        let vertices = parser.try_consume_vertices(vertex_count)?;
        let faces = parser.try_consume_faces(face_count, vertex_count)?;
        proof {
            assert(body.skip(vertex_count as int).skip(face_count as int) =~= body.skip(
                vertex_count + face_count as int,
            ));
        }
        match parser.lines.next() {
            Some(p) => Err(Error::with_message(
                ErrorKind::Invalid,
                p.0,
                "Unexpected lines after OFF definition",
            )),
            None => {
                let d = Document::new(vertices, faces, edge_count);
                proof {
                    assert(doc_model(d@).0 =~= vertices@.map_values(|v: Vertex| vertex_view(v)));
                    assert(doc_model(d@).1 =~= faces@.map_values(|f: FaceRef| face_view(f)));
                }
                Ok(d)
            },
        }
    }

    #[verifier::loop_isolation(false)]
    fn try_consume_face(&mut self, vertex_count: usize) -> (r: Result<FaceRef, Error>)
        requires
            old(self).wf(),
        ensures
            final(self).wf(),
            final(self).limits() == old(self).limits(),
            match face_line::<C>(
                old(self).remaining(),
                vertex_count as nat,
                old(self).limits().face_vertex_count as nat,
            ) {
                Ok(f) => r matches Ok(x) && face_view(x) == f && final(self).remaining() == old(
                    self,
                ).remaining().drop_first(),
                Err(e) => r matches Err(x) && error_is(x, e),
            },
            match face_message(
                old(self).remaining(),
                vertex_count as nat,
                old(self).limits().face_vertex_count as nat,
            ) {
                Some(t) => fails_with_message(r, t),
                None => true,
            },
    {
        let (index, line) = match self.lines.next() {
            None => {
                return Err(Error::with_message(ErrorKind::Missing, 0, "Expected face"));
            },
            Some(p) => p,
        };
        let ws = split_words(&line);
        let ghost wv = words(line@);
        if ws.len() == 0 {
            return Err(Error::with_message(
                ErrorKind::InvalidFace,
                index,
                "Expected number of vertices",
            ));
        }
        assert(views(ws@)[0] == ws@[0]@);
        let n = match parse_unsigned(&ws[0], usize::MAX) {
            Some(n) => n,
            None => {
                return Err(Error::with_message(
                    ErrorKind::InvalidFace,
                    index,
                    "Failed to parse vertex count as number",
                ));
            },
        };
        let limit = self.options.limits.face_vertex_count;
        if n > limit {
            return Err(Error::new(
                ErrorKind::LimitExceeded,
                index,
                Some(
                    message_with(
                        "Vertex count of face exceeds limit (limit: ",
                        limit,
                        ", requested: ",
                        n,
                        ")",
                    ),
                ),
            ));
        }
        let mut refs: Vec<VertexRef> = Vec::new();
        let mut i: usize = 0;
        while i < n
            invariant
                i <= n,
                1 + i <= ws.len(),
                views(ws@) == wv,
                refs@.len() == i,
                forall|j: int|
                    0 <= j < i ==> index_ok(#[trigger] wv[1 + j], vertex_count as nat)
                        && count_of(wv[1 + j]) == Some(refs@[j].0 as nat),
                index_problem(wv, 0, n as nat, vertex_count as nat) == index_problem(
                    wv,
                    i as nat,
                    n as nat,
                    vertex_count as nat,
                ),
            decreases n - i,
        {
            if 1 + i >= ws.len() {
                return Err(Error::with_message(
                    ErrorKind::InvalidFace,
                    index,
                    "Expected vertex index",
                ));
            }
            assert(views(ws@)[1 + i] == ws@[1 + i]@);
            let v = match parse_unsigned(&ws[1 + i], usize::MAX) {
                Some(v) => v,
                None => {
                    assert(!index_ok(wv[1 + i], vertex_count as nat));
                    return Err(Error::with_message(
                        ErrorKind::InvalidFace,
                        index,
                        "Failed to parse vertex index as number",
                    ));
                },
            };
            if v >= vertex_count {
                assert(!index_ok(wv[1 + i], vertex_count as nat));
                return Err(Error::new(
                    ErrorKind::InvalidFace,
                    index,
                    Some(message_with("Vertex index out of bounds (", v, "/", vertex_count, ")")),
                ));
            }
            refs.push(VertexRef(v));
            i = i + 1;
        }
        let ghost indices = Seq::new(n as nat, |j: int| count_of(wv[1 + j])->0 as int);
        assert(refs@.map_values(|v: VertexRef| v.0 as int) =~= indices);
        let rest = words_from(&ws, 1 + n);
        if rest.len() == 0 {
            return Ok(FaceRef { vertex_refs: refs, color: None });
        }
        match C::try_parse(&rest) {
            Err(ce) => Err(Error::new(ErrorKind::InvalidColor, index, Some(ce.describe()))),
            Ok((color, used)) => {
                if used < rest.len() {
                    Err(Error::with_message(
                        ErrorKind::Invalid,
                        index,
                        "Found elements after color definition",
                    ))
                } else {
                    Ok(FaceRef { vertex_refs: refs, color })
                }
            },
        }
    }

    fn try_consume_faces(&mut self, face_count: usize, vertex_count: usize) -> (r: Result<
        Vec<FaceRef>,
        Error,
    >)
        requires
            old(self).wf(),
        ensures
            final(self).wf(),
            final(self).limits() == old(self).limits(),
            match faces_step::<C>(
                old(self).remaining(),
                face_count as nat,
                vertex_count as nat,
                old(self).limits().face_vertex_count as nat,
            ) {
                Ok(fs) => r matches Ok(x) && x@.map_values(|f: FaceRef| face_view(f)) == fs
                    && face_count <= old(self).remaining().len() && final(self).remaining() == old(self).remaining().skip(face_count as int),
                Err(e) => r matches Err(x) && error_is(x, e),
            },
    {
        let ghost ls = self.remaining();
        let ghost limit = self.limits().face_vertex_count as nat;
        let mut faces: Vec<FaceRef> = Vec::new();
        let mut i: usize = 0;
        assert(ls.skip(0) =~= ls);
        assert(faces@.map_values(|f: FaceRef| face_view(f)) =~= Seq::empty());
        while i < face_count
            invariant
                i <= face_count,
                self.wf(),
                self.limits() == old(self).limits(),
                limit == self.limits().face_vertex_count as nat,
                ls == old(self).remaining(),
                i <= ls.len(),
                self.remaining() == ls.skip(i as int),
                faces_step::<C>(ls, i as nat, vertex_count as nat, limit) == Step::Ok(
                    faces@.map_values(|f: FaceRef| face_view(f)),
                ),
            decreases face_count - i,
        {
            let f = self.try_consume_face(vertex_count);
            match f {
                Ok(f) => {
                    let ghost before = faces@;
                    faces.push(f);
                    proof {
                        assert(faces@.map_values(|f: FaceRef| face_view(f)) =~= before.map_values(
                            |f: FaceRef| face_view(f),
                        ).push(face_view(f)));
                        assert(ls.skip(i as int).drop_first() =~= ls.skip(i + 1));
                    }
                },
                Err(e) => {
                    proof {
                        lemma_faces_step_stops::<C>(
                            ls,
                            i as nat,
                            face_count as nat,
                            vertex_count as nat,
                            limit,
                        );
                    }
                    return Err(e);
                },
            }
            i = i + 1;
        }
        Ok(faces)
    }
}

/// A counts line of two numbers gives no edge count, one of three numbers
/// gives the third as the edge count, and one of any other number of words
/// is refused.
pub proof fn law_counts_line(l: LineModel)
    ensures
        ({
            let ws = words(l.1);
            &&& ws.len() == 2 && count_of(ws[0]) is Some && count_of(ws[1]) is Some ==> counts_of(l)
                == Step::Ok((count_of(ws[0])->0, count_of(ws[1])->0, None::<nat>))
            &&& ws.len() == 3 && count_of(ws[0]) is Some && count_of(ws[1]) is Some && count_of(
                ws[2],
            ) is Some ==> counts_of(l) == Step::Ok(
                (count_of(ws[0])->0, count_of(ws[1])->0, Some(count_of(ws[2])->0)),
            )
            &&& ws.len() != 2 && ws.len() != 3 ==> counts_of(l) == Step::<
                (nat, nat, Option<nat>),
            >::Err((ErrorKind::InvalidCounts, l.0))
        }),
{
    let ws = words(l.1);
    if ws.len() == 2 && count_of(ws[0]) is Some && count_of(ws[1]) is Some {
        assert(!exists|i: int| 0 <= i < 2 && (#[trigger] count_of(ws[i])) is None);
    }
    if ws.len() == 3 && count_of(ws[0]) is Some && count_of(ws[1]) is Some && count_of(
        ws[2],
    ) is Some {
        assert(!exists|i: int| 0 <= i < 3 && (#[trigger] count_of(ws[i])) is None);
    }
}

/// The edge count of a parsed document comes from its counts line: none
/// where the line has two numbers, the third where it has three.
pub proof fn law_edge_count<C: ColorFormat>(ls: Seq<LineModel>, limits: Limits)
    requires
        parse_lines::<C>(ls, limits) is Ok,
    ensures
        ({
            let ws = words(ls.skip(magic_step(ls)->Ok_0 as int)[0].1);
            &&& ws.len() == 2 || ws.len() == 3
            &&& ws.len() == 2 ==> parse_lines::<C>(ls, limits)->Ok_0.2 is None
            &&& ws.len() == 3 ==> parse_lines::<C>(ls, limits)->Ok_0.2 == Some(
                count_of(ws[2])->0,
            )
        }),
{
}

/// Counts above the limits end the parse with `LimitExceeded` before any
/// vertex or face line is read: the lines after the counts line do not
/// change the outcome.
pub proof fn law_limits_precede_content<C: ColorFormat>(ls: Seq<LineModel>, limits: Limits, k: int)
    requires
        magic_step(ls) is Ok,
        counts_step(ls.skip(magic_step(ls)->Ok_0 as int)) matches Ok((nv, nf, ne)) && (nv
            > limits.vertex_count || nf > limits.face_count),
        magic_step(ls)->Ok_0 + 1 <= k <= ls.len(),
    ensures
        parse_lines::<C>(ls, limits) == Step::<DocModel>::Err(
            (ErrorKind::LimitExceeded, ls.skip(magic_step(ls)->Ok_0 as int)[0].0),
        ),
        parse_lines::<C>(ls.take(k), limits) == parse_lines::<C>(ls, limits),
{
    let m = magic_step(ls)->Ok_0 as int;
    let short = ls.take(k);
    assert(short[0] == ls[0]);
    assert(magic_step(short) == magic_step(ls));
    assert(short.skip(m)[0] == ls.skip(m)[0]);
    assert(counts_step(short.skip(m)) == counts_step(ls.skip(m)));
}

/// A face whose vertex-index count is above the per-face limit ends the
/// parse with `LimitExceeded` on its own line, whatever its other words.
pub proof fn law_face_limit<C: ColorFormat>(l: LineModel, vertex_count: nat, limit: nat)
    requires
        words(l.1).len() > 0,
        count_of(words(l.1)[0]) matches Some(n) && n > limit,
    ensures
        face_of::<C>(l, vertex_count, limit) == Step::<(Seq<int>, Option<Color>)>::Err(
            (ErrorKind::LimitExceeded, l.0),
        ),
{
}

/// Whether every vertex index of every face model is below `n`.
pub open spec fn model_refs_in_range(fs: Seq<(Seq<int>, Option<Color>)>, n: int) -> bool {
    forall|i: int, j: int| 0 <= i < fs.len() && 0 <= j < fs[i].0.len() ==> #[trigger] fs[i].0[j] < n
}

proof fn lemma_vertices_step_len(ls: Seq<LineModel>, n: nat)
    requires
        vertices_step(ls, n) is Ok,
    ensures
        vertices_step(ls, n)->Ok_0.len() == n,
    decreases n,
{
    if n > 0 {
        lemma_vertices_step_len(ls, (n - 1) as nat);
    }
}

proof fn lemma_faces_step_in_range<C: ColorFormat>(
    ls: Seq<LineModel>,
    n: nat,
    vertex_count: nat,
    limit: nat,
)
    requires
        faces_step::<C>(ls, n, vertex_count, limit) is Ok,
    ensures
        model_refs_in_range(faces_step::<C>(ls, n, vertex_count, limit)->Ok_0, vertex_count as int),
    decreases n,
{
    if n > 0 {
        lemma_faces_step_in_range::<C>(ls, (n - 1) as nat, vertex_count, limit);
        let fs = faces_step::<C>(ls, (n - 1) as nat, vertex_count, limit)->Ok_0;
        let line = ls.skip(n - 1)[0];
        let f = face_line::<C>(ls.skip(n - 1), vertex_count, limit)->Ok_0;
        let ws = words(line.1);
        assert forall|j: int| 0 <= j < f.0.len() implies #[trigger] f.0[j] < vertex_count by {
            assert(index_ok(ws[1 + j], vertex_count));
        }
        let all = fs.push(f);
        assert forall|i: int, j: int| 0 <= i < all.len() && 0 <= j < all[i].0.len() implies #[trigger] all[i].0[j]
            < vertex_count by {
            if i < fs.len() {
                assert(all[i] == fs[i]);
            }
        }
    }
}

/// Every document that the parser returns passes validation: each face
/// index is below the declared vertex count, which is the number of
/// vertices read.
pub proof fn law_parsed_documents_validate<C: ColorFormat>(ls: Seq<LineModel>, limits: Limits)
    requires
        parse_lines::<C>(ls, limits) is Ok,
    ensures
        model_refs_in_range(
            parse_lines::<C>(ls, limits)->Ok_0.1,
            parse_lines::<C>(ls, limits)->Ok_0.0.len() as int,
        ),
{
    let m = magic_step(ls)->Ok_0;
    let rest = ls.skip(m as int);
    let (nv, nf, ne) = counts_step(rest)->Ok_0;
    let body = rest.skip(1);
    lemma_vertices_step_len(body, nv);
    lemma_faces_step_in_range::<C>(body.skip(nv as int), nf, nv, limits.face_vertex_count as nat);
}

/// Parses `text` into an unchecked document under `options`.
pub fn parse<C: ColorFormat>(text: &str, options: ParserOptions<C>) -> (r: Result<
    Document<Unchecked>,
    Error,
>)
    ensures
        match parse_lines::<C>(crate::text::off_lines(text@), options.limits) {
            Ok(m) => r matches Ok(d) && doc_model(d@) == m,
            Err(e) => r matches Err(x) && error_is(x, e),
        },
{
    OffParser::new_with_options(text, options).try_parse()
}

/// Relies on `String::push`: appends one character to the string.
#[verifier::external_body]
fn push_char(s: &mut String, c: char)
    ensures
        final(s)@ == old(s)@.push(c),
{
    s.push(c);
}

fn push_text(s: &mut String, t: &str)
    ensures
        final(s)@ == old(s)@ + t@,
{
    let cs = chars_of(t);
    let mut i: usize = 0;
    while i < cs.len()
        invariant
            i <= cs.len(),
            cs@ == t@,
            s@ == old(s)@ + cs@.take(i as int),
        decreases cs.len() - i,
    {
        push_char(s, cs[i]);
        assert(old(s)@ + cs@.take(i + 1) =~= (old(s)@ + cs@.take(i as int)).push(cs@[i as int]));
        i = i + 1;
    }
    assert(cs@.take(i as int) =~= cs@);
}

/// The decimal digit for `d`, 0 to 9.
pub open spec fn digit_char(d: nat) -> char {
    if d == 0 {
        '0'
    } else if d == 1 {
        '1'
    } else if d == 2 {
        '2'
    } else if d == 3 {
        '3'
    } else if d == 4 {
        '4'
    } else if d == 5 {
        '5'
    } else if d == 6 {
        '6'
    } else if d == 7 {
        '7'
    } else if d == 8 {
        '8'
    } else {
        '9'
    }
}

/// `n` written in decimal, without leading zeros.
pub open spec fn decimal(n: nat) -> Seq<char>
    decreases n,
{
    if n < 10 {
        seq![digit_char(n)]
    } else {
        decimal(n / 10).push(digit_char(n % 10))
    }
}

fn push_decimal(s: &mut String, n: usize)
    ensures
        final(s)@ == old(s)@ + decimal(n as nat),
    decreases n,
{
    if n >= 10 {
        push_decimal(s, n / 10);
    }
    let d = n % 10;
    let c = if d == 0 {
        '0'
    } else if d == 1 {
        '1'
    } else if d == 2 {
        '2'
    } else if d == 3 {
        '3'
    } else if d == 4 {
        '4'
    } else if d == 5 {
        '5'
    } else if d == 6 {
        '6'
    } else if d == 7 {
        '7'
    } else if d == 8 {
        '8'
    } else {
        '9'
    };
    push_char(s, c);
    assert(s@ =~= old(s)@ + decimal(n as nat));
}

/// A message of text, a number, text, a number and text.
fn message_with(a: &str, x: usize, b: &str, y: usize, c: &str) -> (r: String)
    ensures
        r@ == a@ + decimal(x as nat) + b@ + decimal(y as nat) + c@,
{
    let mut s = String::new();
    push_text(&mut s, a);
    push_decimal(&mut s, x);
    push_text(&mut s, b);
    push_decimal(&mut s, y);
    push_text(&mut s, c);
    s
}

/// A message of text, a number and text.
fn message_with_count(a: &str, x: usize, c: &str) -> (r: String)
    ensures
        r@ == a@ + decimal(x as nat) + c@,
{
    let mut s = String::new();
    push_text(&mut s, a);
    push_decimal(&mut s, x);
    push_text(&mut s, c);
    s
}

/// Once reading the face at position `i` fails, reading any more fails the
/// same way.
proof fn lemma_faces_step_stops<C: ColorFormat>(
    ls: Seq<LineModel>,
    i: nat,
    n: nat,
    vertex_count: nat,
    limit: nat,
)
    requires
        i < n,
        faces_step::<C>(ls, (i + 1) as nat, vertex_count, limit) is Err,
    ensures
        faces_step::<C>(ls, n, vertex_count, limit) == faces_step::<C>(
            ls,
            (i + 1) as nat,
            vertex_count,
            limit,
        ),
    decreases n - i,
{
    if n > i + 1 {
        lemma_faces_step_stops::<C>(ls, i, (n - 1) as nat, vertex_count, limit);
    }
}

/// Once reading the vertex at position `i` fails, reading any more fails
/// the same way.
proof fn lemma_vertices_step_stops(ls: Seq<LineModel>, i: nat, n: nat)
    requires
        i < n,
        vertices_step(ls, (i + 1) as nat) is Err,
    ensures
        vertices_step(ls, n) == vertices_step(ls, (i + 1) as nat),
    decreases n - i,
{
    if n > i + 1 {
        lemma_vertices_step_stops(ls, i, (n - 1) as nat);
    }
}

} // verus!
