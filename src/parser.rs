//! The document parser: header, counts, vertices, faces, in that order.
use vstd::prelude::*;

pub mod color_format;
pub mod error;
pub mod iter;
pub mod model;
pub mod options;
pub mod utils;

use crate::geometry::color::{opt_color, Color};
use crate::geometry::decimal::{decimal_of, Decimal};
use crate::geometry::mesh::{Face, FaceModel, Mesh, Vertex, VertexModel};
use crate::geometry::position::Position;
use crate::parser::color_format::ColorFormat;
use crate::parser::error::{limit_message, Error, Kind};
use crate::parser::iter::{document_lines, OffLines};
use crate::parser::model::{
    channel_of, color_of, count_of, counts_of, counts_stage, face_in_range, face_of, faces_stage,
    header_of, indices_check, indices_of, is_count, last_read, lemma_faces_stage, line_indices,
    parse_lines, position_of, prepend, vertex_of, vertices_stage, Fault, Lines,
};
use crate::parser::options::{Limits, Options};
use crate::parser::utils::{parse_u8, parse_usize, tokens, tokens_of, unsigned_of, views};
use vstd::slice::slice_subrange;

verus! {

/// Whether `r` is the error that the model gives as `fault`.
pub open spec fn fails_as<T>(r: Result<T, Error>, fault: Fault) -> bool {
    r matches Err(e) && e.kind == fault.0 && e.line_index as int == fault.1
}

/// Reads the counts from the tokens of a counts line.
pub fn read_counts(line_index: usize, parts: &[String], limits: Limits) -> (r: Result<
    (usize, usize, usize),
    Error,
>)
    ensures
        counts_of(views(parts@), line_index as int, limits) matches Ok(c) ==> r matches Ok(v) && v.0
            == c.0 && v.1 == c.1 && v.2 == c.2,
        counts_of(views(parts@), line_index as int, limits) matches Err(f) ==> fails_as(r, f),
{
    let ghost ts = views(parts@);
    let mut num: Vec<usize> = Vec::new();
    let mut i: usize = 0;
    while i < parts.len()
        invariant
            i <= parts.len(),
            ts == views(parts@),
            num@.len() == i,
            forall|k: int| 0 <= k < i ==> is_count(#[trigger] ts[k]) && num@[k] == count_of(ts[k]),
        decreases parts.len() - i,
    {
        assert(ts[i as int] == parts@[i as int]@);
        match parse_usize(parts[i].as_str()) {
            Some(v) => num.push(v),
            None => {
                return Err(
                    Error::with_message(
                        Kind::InvalidCounts,
                        line_index,
                        "failed to parse a count as a number",
                    ),
                );
            },
        }
        i = i + 1;
    }
    if num.len() != 2 && num.len() != 3 {
        return Err(
            Error::with_message(Kind::InvalidCounts, line_index, "expected two or three counts"),
        );
    }
    let edge_count = if num.len() == 3 { num[2] } else { 0 };
    if num[0] > limits.vertex_count {
        let message = limit_message("vertex count", limits.vertex_count, num[0]);
        return Err(Error::new(Kind::LimitExceeded, line_index, Some(message)));
    }
    if num[1] > limits.face_count {
        let message = limit_message("face count", limits.face_count, num[1]);
        return Err(Error::new(Kind::LimitExceeded, line_index, Some(message)));
    }
    Ok((num[0], num[1], edge_count))
}

/// Reads the decimals of some tokens; `None` when one is not a numeral.
fn read_decimals(parts: &[String]) -> (r: Option<Vec<Decimal>>)
    ensures
        r is Some <==> forall|k: int|
            0 <= k < parts@.len() ==> decimal_of(#[trigger] views(parts@)[k]) is Some,
        r matches Some(ds) ==> ds@.len() == parts@.len() && forall|k: int|
            0 <= k < parts@.len() ==> #[trigger] ds@[k]@ == decimal_of(views(parts@)[k])->0,
{
    let ghost ts = views(parts@);
    let mut ds: Vec<Decimal> = Vec::new();
    let mut i: usize = 0;
    while i < parts.len()
        invariant
            i <= parts.len(),
            ts == views(parts@),
            ds@.len() == i,
            forall|k: int| 0 <= k < i ==> decimal_of(#[trigger] ts[k]) is Some,
            forall|k: int| 0 <= k < i ==> #[trigger] ds@[k]@ == decimal_of(ts[k])->0,
        decreases parts.len() - i,
    {
        assert(ts[i as int] == parts@[i as int]@);
        match Decimal::parse(parts[i].as_str()) {
            Some(d) => ds.push(d),
            None => {
                return None;
            },
        }
        i = i + 1;
    }
    Some(ds)
}

/// Reads the bytes of some tokens; `None` when one is not a byte.
fn read_bytes(parts: &[String]) -> (r: Option<Vec<u8>>)
    ensures
        r is Some <==> forall|k: int|
            0 <= k < parts@.len() ==> unsigned_of(#[trigger] views(parts@)[k], 255) is Some,
        r matches Some(bs) ==> bs@.len() == parts@.len() && forall|k: int|
            0 <= k < parts@.len() ==> #[trigger] bs@[k] == unsigned_of(views(parts@)[k], 255)->0,
{
    let ghost ts = views(parts@);
    let mut bs: Vec<u8> = Vec::new();
    let mut i: usize = 0;
    while i < parts.len()
        invariant
            i <= parts.len(),
            ts == views(parts@),
            bs@.len() == i,
            forall|k: int| 0 <= k < i ==> unsigned_of(#[trigger] ts[k], 255) is Some,
            forall|k: int| 0 <= k < i ==> #[trigger] bs@[k] == unsigned_of(ts[k], 255)->0,
        decreases parts.len() - i,
    {
        assert(ts[i as int] == parts@[i as int]@);
        match parse_u8(parts[i].as_str()) {
            Some(b) => bs.push(b),
            None => {
                return None;
            },
        }
        i = i + 1;
    }
    Some(bs)
}

/// Parses a position from exactly three numerals.
pub fn parse_position(line_index: usize, parts: &[String]) -> (r: Result<Position, Error>)
    ensures
        position_of(views(parts@), line_index as int) matches Ok(p) ==> r matches Ok(q) && q@ == p,
        position_of(views(parts@), line_index as int) matches Err(f) ==> fails_as(r, f),
{
    if parts.len() != 3 {
        return Err(
            Error::with_message(
                Kind::InvalidVertexPosition,
                line_index,
                "expected three coordinates",
            ),
        );
    }
    match read_decimals(parts) {
        None => Err(
            Error::with_message(
                Kind::InvalidVertexPosition,
                line_index,
                "failed to parse a coordinate as a number",
            ),
        ),
        Some(ds) => match Position::from_coords(ds) {
            Ok(p) => Ok(p),
            Err(_) => Err(
                Error::with_message(
                    Kind::InvalidVertexPosition,
                    line_index,
                    "failed to make a position",
                ),
            ),
        },
    }
}

/// Parses a color from exactly as many tokens as the format has channels.
pub fn parse_color(line_index: usize, parts: &[String], format: ColorFormat) -> (r: Result<
    Color,
    Error,
>)
    ensures
        color_of(views(parts@), format) matches Some(c) ==> r matches Ok(q) && q@ == c,
        color_of(views(parts@), format) is None ==> fails_as(
            r,
            (Kind::InvalidColor, line_index as int),
        ),
{
    let ghost ts = views(parts@);
    if parts.len() != format.channel_count() {
        return Err(
            Error::with_message(
                Kind::InvalidColor,
                line_index,
                "wrong number of color values",
            ),
        );
    }
    if format.is_float() {
        match read_decimals(parts) {
            None => {
                assert(!(forall|k: int|
                    0 <= k < ts.len() ==> channel_of(#[trigger] ts[k], format) is Some));
                Err(
                    Error::with_message(
                        Kind::InvalidColor,
                        line_index,
                        "failed to parse a color value as a number",
                    ),
                )
            },
            Some(ds) => {
                assert(forall|k: int|
                    0 <= k < ts.len() ==> channel_of(#[trigger] ts[k], format) is Some);
                match Color::from_decimals(ds) {
                    Ok(c) => Ok(c),
                    Err(_) => Err(
                        Error::with_message(
                            Kind::InvalidColor,
                            line_index,
                            "color values must be between 0 and 1",
                        ),
                    ),
                }
            },
        }
    } else {
        match read_bytes(parts) {
            None => {
                assert(!(forall|k: int|
                    0 <= k < ts.len() ==> channel_of(#[trigger] ts[k], format) is Some));
                Err(
                    Error::with_message(
                        Kind::InvalidColor,
                        line_index,
                        "failed to parse a color value as a byte",
                    ),
                )
            },
            Some(bs) => {
                assert(forall|k: int|
                    0 <= k < ts.len() ==> channel_of(#[trigger] ts[k], format) is Some);
                match Color::from_bytes(&bs) {
                    Ok(c) => Ok(c),
                    Err(_) => Err(
                        Error::with_message(
                            Kind::InvalidColor,
                            line_index,
                            "wrong number of color values",
                        ),
                    ),
                }
            },
        }
    }
}

/// Parses a vertex line: three numerals, then nothing or one color.
pub fn parse_vertex(line_index: usize, parts: &[String], format: ColorFormat) -> (r: Result<
    Vertex,
    Error,
>)
    ensures
        vertex_of(views(parts@), line_index as int, format) matches Ok(v) ==> r matches Ok(q) && q@
            == v,
        vertex_of(views(parts@), line_index as int, format) matches Err(f) ==> fails_as(r, f),
{
    let ghost ts = views(parts@);
    let n = parts.len();
    if n < 3 || (n > 3 && n - 3 != format.channel_count()) {
        return Err(
            Error::with_message(
                Kind::InvalidVertexPosition,
                line_index,
                "expected three coordinates and at most one color",
            ),
        );
    }
    let head = slice_subrange(parts, 0, 3);
    assert(views(head@) == ts.take(3));
    let position = match parse_position(line_index, head) {
        Ok(p) => p,
        Err(e) => {
            return Err(e);
        },
    };
    if n == 3 {
        return Ok(Vertex::new(position, None));
    }
    let tail = slice_subrange(parts, 3, n);
    assert(views(tail@) == ts.skip(3));
    match parse_color(line_index, tail, format) {
        Ok(c) => {
            let ghost cm = c@;
            let v = Vertex::new(position, Some(c));
            assert(opt_color(Some(c)) == Some(cm));
            Ok(v)
        },
        Err(e) => Err(e),
    }
}

/// Parses the first `vertex_count` tokens as vertex indices.
pub fn parse_face_indices(line_index: usize, vertex_count: usize, parts: &[String]) -> (r: Result<
    Vec<usize>,
    Error,
>)
    ensures
        indices_of(views(parts@), vertex_count as int, line_index as int) matches Ok(vs)
            ==> r matches Ok(q) && q@ == vs,
        indices_of(views(parts@), vertex_count as int, line_index as int) matches Err(f)
            ==> fails_as(r, f),
{
    let ghost ts = views(parts@);
    let mut vertices: Vec<usize> = Vec::new();
    let mut i: usize = 0;
    while i < vertex_count && i < parts.len()
        invariant
            i <= parts.len(),
            i <= vertex_count,
            ts == views(parts@),
            vertices@.len() == i,
            forall|k: int|
                0 <= k < i ==> is_count(#[trigger] ts[k]) && vertices@[k] == count_of(ts[k]) as usize,
        decreases parts.len() - i,
    {
        assert(ts[i as int] == parts@[i as int]@);
        match parse_usize(parts[i].as_str()) {
            Some(v) => vertices.push(v),
            None => {
                return Err(
                    Error::with_message(
                        Kind::InvalidFaceIndex,
                        line_index,
                        "failed to parse a vertex index as a number",
                    ),
                );
            },
        }
        i = i + 1;
    }
    if i < vertex_count {
        return Err(
            Error::with_message(
                Kind::InvalidFaceIndex,
                line_index,
                "fewer vertex indices than the face declares",
            ),
        );
    }
    assert(vertices@ == Seq::new(vertex_count as nat, |k: int| count_of(ts[k]) as usize));
    Ok(vertices)
}

/// Parses a face line: a vertex count, that many vertex indices, then nothing
/// or one color.
pub fn parse_face(line_index: usize, parts: &[String], options: Options) -> (r: Result<Face, Error>)
    ensures
        face_of(views(parts@), line_index as int, options) matches Ok(f) ==> r matches Ok(q) && q@
            == f,
        face_of(views(parts@), line_index as int, options) matches Err(f) ==> fails_as(r, f),
{
    let ghost ts = views(parts@);
    let n = parts.len();
    if n < 4 {
        return Err(
            Error::with_message(
                Kind::InvalidFace,
                line_index,
                "a face needs a vertex count and at least three vertex indices",
            ),
        );
    }
    assert(ts[0] == parts@[0]@);
    let count = match parse_usize(parts[0].as_str()) {
        Some(c) => c,
        None => {
            return Err(
                Error::with_message(
                    Kind::InvalidFace,
                    line_index,
                    "failed to parse the vertex count of a face",
                ),
            );
        },
    };
    if count > options.limits.face_vertex_count {
        let message = limit_message(
            "vertex count of face",
            options.limits.face_vertex_count,
            count,
        );
        return Err(Error::new(Kind::LimitExceeded, line_index, Some(message)));
    }
    if count < 3 {
        return Err(
            Error::with_message(
                Kind::InvalidFace,
                line_index,
                "a face needs at least three vertices",
            ),
        );
    }
    let after_count = slice_subrange(parts, 1, n);
    assert(views(after_count@) == ts.skip(1));
    let vertices = match parse_face_indices(line_index, count, after_count) {
        Ok(vs) => vs,
        Err(e) => {
            return Err(e);
        },
    };
    let rest = slice_subrange(parts, 1 + count, n);
    assert(views(rest@) == ts.skip(1 + count));
    if rest.len() == 0 {
        return Ok(Face::new(vertices, None));
    }
    match parse_color(line_index, rest, options.color_format) {
        Ok(c) => {
            let ghost cm = c@;
            let f = Face::new(vertices, Some(c));
            assert(opt_color(Some(c)) == Some(cm));
            Ok(f)
        },
        Err(e) => Err(e),
    }
}

/// A parser over one document: the line source, what has been read so far,
/// and the options it reads with.
pub struct Parser {
    /// The logical lines not read yet.
    pub lines: OffLines,
    /// The index of the last line read (0 before any).
    pub prev_line_index: usize,
    /// The vertex count of the counts line.
    pub vertex_count: usize,
    /// The face count of the counts line.
    pub face_count: usize,
    /// The edge count of the counts line (0 when absent); never checked.
    pub edge_count: usize,
    /// The mesh read so far.
    pub document: Mesh,
    /// How the document is read.
    pub options: Options,
    /// The line index of each face read so far.
    pub face_lines: Vec<usize>,
}

impl Parser {
    /// The logical lines not read yet.
    pub open spec fn remaining(&self) -> Lines {
        self.lines@
    }

    /// The index of the last line read (0 before any).
    pub open spec fn prev(&self) -> int {
        self.prev_line_index as int
    }

    /// The line index of each face read so far.
    pub open spec fn face_line_indices(&self) -> Seq<int> {
        self.face_lines@.map_values(|i: usize| i as int)
    }

    /// The parser's own consistency.
    pub open spec fn wf(&self) -> bool {
        &&& self.lines.wf()
        &&& self.prev_line_index < usize::MAX
    }

    /// Whether only the line source and the last line index differ between
    /// two states.
    pub open spec fn same_except_lines(&self, other: &Parser) -> bool {
        &&& self.vertex_count == other.vertex_count
        &&& self.face_count == other.face_count
        &&& self.edge_count == other.edge_count
        &&& self.document@ == other.document@
        &&& self.options == other.options
        &&& self.face_line_indices() == other.face_line_indices()
    }

    /// A parser over the logical lines of `s`.
    pub fn new(s: &str, options: Options) -> (r: Parser)
        ensures
            r.wf(),
            r.remaining() == document_lines(s@),
            r.prev() == 0,
            r.vertex_count == 0,
            r.face_count == 0,
            r.edge_count == 0,
            r.document@.0.len() == 0,
            r.document@.1.len() == 0,
            r.options == options,
            r.face_line_indices().len() == 0,
    {
        let r = Parser {
            lines: OffLines::new(s),
            prev_line_index: 0,
            vertex_count: 0,
            face_count: 0,
            edge_count: 0,
            document: Mesh::new(),
            options,
            face_lines: Vec::new(),
        };
        assert(r.face_line_indices().len() == 0);
        r
    }

    /// Reads the next logical line and remembers its index.
    pub fn next_line(&mut self) -> (r: Option<(usize, String)>)
        requires
            old(self).wf(),
        ensures
            final(self).wf(),
            final(self).same_except_lines(old(self)),
            old(self).remaining().len() == 0 ==> r is None && final(self).remaining() == old(
                self,
            ).remaining() && final(self).prev() == old(self).prev(),
            old(self).remaining().len() > 0 ==> {
                &&& r matches Some((idx, line)) && idx as int == old(self).remaining()[0].0
                    && line@ == old(self).remaining()[0].1
                &&& final(self).remaining() == old(self).remaining().drop_first()
                &&& final(self).prev() == old(self).remaining()[0].0
            },
    {
        proof {
            self.lines.lemma_remaining();
        }
        let r = self.lines.next();
        if let Some((idx, _)) = &r {
            self.prev_line_index = *idx;
        }
        r
    }

    /// Reads the next logical line as tokens.
    fn next_parts(&mut self) -> (r: Option<(usize, Vec<String>)>)
        requires
            old(self).wf(),
        ensures
            final(self).wf(),
            final(self).same_except_lines(old(self)),
            old(self).remaining().len() == 0 ==> r is None && final(self).remaining() == old(
                self,
            ).remaining() && final(self).prev() == old(self).prev(),
            old(self).remaining().len() > 0 ==> {
                &&& r matches Some((idx, parts)) && idx as int == old(self).remaining()[0].0
                    && views(parts@) == tokens(old(self).remaining()[0].1)
                &&& final(self).remaining() == old(self).remaining().drop_first()
                &&& final(self).prev() == old(self).remaining()[0].0
            },
    {
        proof {
            self.lines.lemma_remaining();
        }
        match self.lines.next_chars() {
            Some((idx, chars)) => {
                self.prev_line_index = idx;
                Some((idx, tokens_of(&chars)))
            },
            None => None,
        }
    }

    /// The header stage: the first logical line must be `OFF`.
    pub fn parse_header(&mut self) -> (r: Result<(), Error>)
        requires
            old(self).wf(),
        ensures
            final(self).wf(),
            final(self).same_except_lines(old(self)),
            header_of(old(self).remaining()) is Ok ==> r is Ok && final(self).remaining() == old(
                self,
            ).remaining().drop_first() && final(self).prev() == old(self).remaining()[0].0,
            header_of(old(self).remaining()) matches Err(f) ==> fails_as(r, f),
    {
        let (line_index, line) = match self.next_line() {
            Some(l) => l,
            None => {
                return Err(Error::without_message(Kind::Empty, 0));
            },
        };
        proof {
            reveal_strlit("OFF");
        }
        let is_off = line.as_str().unicode_len() == 3 && line.as_str().get_char(0) == 'O'
            && line.as_str().get_char(1) == 'F' && line.as_str().get_char(2) == 'F';
        assert(is_off <==> line@ == seq!['O', 'F', 'F']) by {
            if line@.len() == 3 && line@[0] == 'O' && line@[1] == 'F' && line@[2] == 'F' {
                assert(line@ == seq!['O', 'F', 'F']);
            }
        }
        if !is_off {
            return Err(
                Error::with_message(
                    Kind::InvalidHeader,
                    line_index,
                    "first non-comment line should be OFF",
                ),
            );
        }
        Ok(())
    }

    /// The counts stage: two or three counts, within the limits.
    pub fn parse_counts(&mut self) -> (r: Result<(), Error>)
        requires
            old(self).wf(),
        ensures
            final(self).wf(),
            final(self).document@ == old(self).document@,
            final(self).options == old(self).options,
            final(self).face_line_indices() == old(self).face_line_indices(),
            counts_stage(old(self).remaining(), old(self).prev(), old(self).options.limits) matches Ok(
                c,
            ) ==> {
                &&& r is Ok
                &&& final(self).vertex_count == c.0
                &&& final(self).face_count == c.1
                &&& final(self).edge_count == c.2
                &&& final(self).remaining() == old(self).remaining().drop_first()
                &&& final(self).prev() == old(self).remaining()[0].0
            },
            counts_stage(old(self).remaining(), old(self).prev(), old(self).options.limits) matches Err(
                f,
            ) ==> fails_as(r, f),
    {
        let prev = self.prev_line_index;
        let (line_index, parts) = match self.next_parts() {
            Some(l) => l,
            None => {
                return Err(Error::with_message(Kind::Missing, prev + 1, "no counts present"));
            },
        };
        match read_counts(line_index, parts.as_slice(), self.options.limits) {
            Ok((v, f, e)) => {
                self.vertex_count = v;
                self.face_count = f;
                self.edge_count = e;
                Ok(())
            },
            Err(e) => Err(e),
        }
    }

    /// The vertex stage: `vertex_count` vertex lines.
    pub fn parse_vertices(&mut self) -> (r: Result<(), Error>)
        requires
            old(self).wf(),
        ensures
            final(self).wf(),
            final(self).vertex_count == old(self).vertex_count,
            final(self).face_count == old(self).face_count,
            final(self).edge_count == old(self).edge_count,
            final(self).options == old(self).options,
            final(self).face_line_indices() == old(self).face_line_indices(),
            final(self).document@.1 == old(self).document@.1,
            vertices_stage(
                old(self).remaining(),
                old(self).prev(),
                old(self).vertex_count as nat,
                old(self).options.color_format,
            ) matches Ok(vs) ==> {
                &&& r is Ok
                &&& final(self).document@.0 == old(self).document@.0 + vs
                &&& final(self).remaining() == old(self).remaining().skip(
                    old(self).vertex_count as int,
                )
                &&& final(self).prev() == last_read(
                    old(self).remaining(),
                    old(self).prev(),
                    old(self).vertex_count as int,
                )
            },
            vertices_stage(
                old(self).remaining(),
                old(self).prev(),
                old(self).vertex_count as nat,
                old(self).options.color_format,
            ) matches Err(f) ==> fails_as(r, f),
    {
        let n = self.vertex_count;
        let format = self.options.color_format;
        let ghost input = self.remaining();
        let ghost prev_in = self.prev();
        let ghost document_start = self.document@.0;
        let ghost done: Seq<VertexModel> = Seq::empty();
        assert(input.skip(0) == input);
        assert(document_start + done == document_start);
        assert(prepend(done, vertices_stage(input, prev_in, n as nat, format)) == vertices_stage(
            input,
            prev_in,
            n as nat,
            format,
        )) by {
            match vertices_stage(input, prev_in, n as nat, format) {
                Ok(vs) => assert(done + vs == vs),
                Err(_) => {},
            }
        }
        let mut i: usize = 0;
        while i < n
            invariant
                self.wf(),
                self.vertex_count == n,
                self.face_count == old(self).face_count,
                self.edge_count == old(self).edge_count,
                self.options == old(self).options,
                self.options.color_format == format,
                self.face_line_indices() == old(self).face_line_indices(),
                self.document@.1 == old(self).document@.1,
                input == old(self).remaining(),
                prev_in == old(self).prev(),
                document_start == old(self).document@.0,
                n == old(self).vertex_count,
                i <= n,
                i <= input.len(),
                self.remaining() == input.skip(i as int),
                self.prev() == last_read(input, prev_in, i as int),
                self.document@.0 == document_start + done,
                vertices_stage(input, prev_in, n as nat, format) == prepend(
                    done,
                    vertices_stage(
                        input.skip(i as int),
                        last_read(input, prev_in, i as int),
                        (n - i) as nat,
                        format,
                    ),
                ),
            decreases n - i,
        {
            let prev = self.prev_line_index;
            let (line_index, parts) = match self.next_parts() {
                Some(l) => l,
                None => {
                    return Err(
                        Error::with_message(Kind::Missing, prev + 1, "expected a vertex definition"),
                    );
                },
            };
            let vertex = match parse_vertex(line_index, parts.as_slice(), format) {
                Ok(v) => v,
                Err(e) => {
                    return Err(e);
                },
            };
            let ghost vm = vertex@;
            let ghost rest = vertices_stage(
                input.skip(i + 1),
                input[i as int].0,
                (n - i - 1) as nat,
                format,
            );
            assert(input.skip(i as int).drop_first() == input.skip(i + 1));
            assert(input.skip(i as int)[0] == input[i as int]);
            assert(prepend(done, prepend(seq![vm], rest)) == prepend(done.push(vm), rest)) by {
                match rest {
                    Ok(vs) => assert(done + (seq![vm] + vs) == done.push(vm) + vs),
                    Err(_) => {},
                }
            }
            let ghost before = self.document.vertices@;
            self.document.vertices.push(vertex);
            assert(self.document.vertices@.map_values(|v: Vertex| v@) == before.map_values(
                |v: Vertex| v@,
            ).push(vm));
            proof {
                done = done.push(vm);
            }
            i = i + 1;
        }
        assert(vertices_stage(input.skip(i as int), last_read(input, prev_in, i as int), 0, format)
            == Ok::<Seq<VertexModel>, Fault>(Seq::<VertexModel>::empty()));
        assert(done + Seq::<VertexModel>::empty() == done);
        Ok(())
    }

    /// The face stage: `face_count` face lines.
    pub fn parse_faces(&mut self) -> (r: Result<(), Error>)
        requires
            old(self).wf(),
        ensures
            final(self).wf(),
            final(self).vertex_count == old(self).vertex_count,
            final(self).face_count == old(self).face_count,
            final(self).edge_count == old(self).edge_count,
            final(self).options == old(self).options,
            final(self).document@.0 == old(self).document@.0,
            faces_stage(
                old(self).remaining(),
                old(self).prev(),
                old(self).face_count as nat,
                old(self).options,
            ) matches Ok(fs) ==> {
                &&& r is Ok
                &&& final(self).document@.1 == old(self).document@.1 + fs
                &&& final(self).face_line_indices() == old(self).face_line_indices() + line_indices(
                    old(self).remaining().take(old(self).face_count as int),
                )
                &&& final(self).remaining() == old(self).remaining().skip(
                    old(self).face_count as int,
                )
                &&& final(self).prev() == last_read(
                    old(self).remaining(),
                    old(self).prev(),
                    old(self).face_count as int,
                )
            },
            faces_stage(
                old(self).remaining(),
                old(self).prev(),
                old(self).face_count as nat,
                old(self).options,
            ) matches Err(f) ==> fails_as(r, f),
    {
        let n = self.face_count;
        let options = self.options;
        let ghost input = self.remaining();
        let ghost prev_in = self.prev();
        let ghost document_start = self.document@.1;
        let ghost face_lines_start = self.face_line_indices();
        let ghost done: Seq<FaceModel> = Seq::empty();
        assert(input.skip(0) == input);
        assert(document_start + done == document_start);
        assert(line_indices(input.take(0)) == Seq::<int>::empty());
        assert(face_lines_start + Seq::<int>::empty() == face_lines_start);
        assert(prepend(done, faces_stage(input, prev_in, n as nat, options)) == faces_stage(
            input,
            prev_in,
            n as nat,
            options,
        )) by {
            match faces_stage(input, prev_in, n as nat, options) {
                Ok(fs) => assert(done + fs == fs),
                Err(_) => {},
            }
        }
        let mut i: usize = 0;
        while i < n
            invariant
                self.wf(),
                self.face_count == n,
                self.vertex_count == old(self).vertex_count,
                self.edge_count == old(self).edge_count,
                self.options == options,
                options == old(self).options,
                self.document@.0 == old(self).document@.0,
                input == old(self).remaining(),
                prev_in == old(self).prev(),
                document_start == old(self).document@.1,
                face_lines_start == old(self).face_line_indices(),
                n == old(self).face_count,
                i <= n,
                i <= input.len(),
                self.remaining() == input.skip(i as int),
                self.prev() == last_read(input, prev_in, i as int),
                self.document@.1 == document_start + done,
                self.face_line_indices() == face_lines_start + line_indices(input.take(i as int)),
                faces_stage(input, prev_in, n as nat, options) == prepend(
                    done,
                    faces_stage(
                        input.skip(i as int),
                        last_read(input, prev_in, i as int),
                        (n - i) as nat,
                        options,
                    ),
                ),
            decreases n - i,
        {
            let prev = self.prev_line_index;
            let (line_index, parts) = match self.next_parts() {
                Some(l) => l,
                None => {
                    return Err(
                        Error::with_message(Kind::Missing, prev + 1, "expected a face definition"),
                    );
                },
            };
            let face = match parse_face(line_index, parts.as_slice(), options) {
                Ok(f) => f,
                Err(e) => {
                    return Err(e);
                },
            };
            let ghost fm = face@;
            let ghost rest = faces_stage(
                input.skip(i + 1),
                input[i as int].0,
                (n - i - 1) as nat,
                options,
            );
            assert(input.skip(i as int).drop_first() == input.skip(i + 1));
            assert(input.skip(i as int)[0] == input[i as int]);
            assert(prepend(done, prepend(seq![fm], rest)) == prepend(done.push(fm), rest)) by {
                match rest {
                    Ok(fs) => assert(done + (seq![fm] + fs) == done.push(fm) + fs),
                    Err(_) => {},
                }
            }
            let ghost before = self.document.faces@;
            let ghost lines_before = self.face_lines@;
            self.document.faces.push(face);
            self.face_lines.push(line_index);
            assert(self.document.faces@.map_values(|f: Face| f@) == before.map_values(
                |f: Face| f@,
            ).push(fm));
            assert(line_indices(input.take(i + 1)) == line_indices(input.take(i as int)).push(
                input[i as int].0,
            ));
            assert(self.face_lines@.map_values(|k: usize| k as int) == lines_before.map_values(
                |k: usize| k as int,
            ).push(line_index as int));
            proof {
                done = done.push(fm);
            }
            i = i + 1;
        }
        assert(faces_stage(input.skip(i as int), last_read(input, prev_in, i as int), 0, options) == Ok::<
            Seq<FaceModel>,
            Fault,
        >(Seq::<FaceModel>::empty()));
        assert(done + Seq::<FaceModel>::empty() == done);
        Ok(())
    }

    /// Checks that every face refers only to vertices below `vertex_count`;
    /// the first face that does not is reported at its line.
    pub fn check_face_indices(&self) -> (r: Result<(), Error>)
        ensures
            indices_check(self.document@.1, self.face_line_indices(), self.vertex_count as int) is Ok
                ==> r is Ok,
            indices_check(self.document@.1, self.face_line_indices(), self.vertex_count as int) matches Err(
                f,
            ) ==> fails_as(r, f),
    {
        let ghost faces = self.document@.1;
        let ghost lines = self.face_line_indices();
        assert(faces.skip(0) == faces);
        assert(lines.skip(0) == lines);
        let mut i: usize = 0;
        while i < self.document.faces.len() && i < self.face_lines.len()
            invariant
                i <= self.document.faces.len(),
                i <= self.face_lines.len(),
                faces == self.document@.1,
                lines == self.face_line_indices(),
                indices_check(faces, lines, self.vertex_count as int) == indices_check(
                    faces.skip(i as int),
                    lines.skip(i as int),
                    self.vertex_count as int,
                ),
            decreases self.document.faces.len() - i,
        {
            let face = &self.document.faces[i];
            assert(faces.skip(i as int)[0] == face@);
            assert(lines.skip(i as int)[0] == self.face_lines@[i as int] as int);
            let mut j: usize = 0;
            while j < face.vertices.len()
                invariant
                    j <= face.vertices.len(),
                    i < self.document.faces.len(),
                    i < self.face_lines.len(),
                    face == &self.document.faces[i as int],
                    faces == self.document@.1,
                    lines == self.face_line_indices(),
                    indices_check(faces, lines, self.vertex_count as int) == indices_check(
                        faces.skip(i as int),
                        lines.skip(i as int),
                        self.vertex_count as int,
                    ),
                    forall|k: int| 0 <= k < j ==> #[trigger] face.vertices@[k] < self.vertex_count,
                decreases face.vertices.len() - j,
            {
                if face.vertices[j] >= self.vertex_count {
                    assert(faces.skip(i as int)[0].0[j as int] == face.vertices@[j as int]);
                    assert(!face_in_range(faces.skip(i as int)[0], self.vertex_count as int));
                    return Err(
                        Error::with_message(
                            Kind::InvalidFaceIndex,
                            self.face_lines[i],
                            "a face refers to a vertex that does not exist",
                        ),
                    );
                }
                    j = j + 1;
            }
            assert(face_in_range(faces.skip(i as int)[0], self.vertex_count as int));
            assert(faces.skip(i as int).drop_first() == faces.skip(i + 1));
            assert(lines.skip(i as int).drop_first() == lines.skip(i + 1));
            i = i + 1;
        }
        assert(faces.skip(i as int).len() == 0 || lines.skip(i as int).len() == 0);
        Ok(())
    }

    /// The mesh read so far.
    pub fn finalize(self) -> (r: Mesh)
        ensures
            r@ == self.document@,
    {
        self.document
    }

    /// Parses the whole document: header, counts, vertices, faces, then the
    /// check that faces refer to existing vertices. Lines after the last face
    /// are not read.
    pub fn parse(self) -> (r: Result<Mesh, crate::Error>)
        requires
            self.wf(),
        ensures
            parse_lines(self.remaining(), self.options) matches Ok(m) ==> r matches Ok(q) && q@ == m,
            parse_lines(self.remaining(), self.options) matches Err(f) ==> r matches Err(
                crate::Error::ParserError(e),
            ) && e.kind == f.0 && e.line_index == f.1,
    {
        match self.parse_document() {
            Ok(m) => Ok(m),
            Err(e) => Err(crate::Error::ParserError(e)),
        }
    }

    /// Parses the whole document, with the parser's own error.
    pub fn parse_document(self) -> (r: Result<Mesh, Error>)
        requires
            self.wf(),
        ensures
            parse_lines(self.remaining(), self.options) matches Ok(m) ==> r matches Ok(q) && q@ == m,
            parse_lines(self.remaining(), self.options) matches Err(f) ==> fails_as(r, f),
    {
        let mut p = self;
        let ghost input = p.remaining();
        let ghost options = p.options;
        p.document = Mesh::new();
        p.face_lines = Vec::new();
        assert(p.face_line_indices() == Seq::<int>::empty());
        if let Err(e) = p.parse_header() {
            return Err(e);
        }
        let ghost after_header = p.remaining();
        let ghost prev_header = p.prev();
        assert(after_header == input.drop_first() && prev_header == input[0].0);
        if let Err(e) = p.parse_counts() {
            return Err(e);
        }
        let ghost after_counts = p.remaining();
        let ghost prev_counts = p.prev();
        let ghost vc = p.vertex_count as int;
        let ghost fc = p.face_count as int;
        assert(after_counts == after_header.drop_first() && prev_counts == after_header[0].0);
        assert(counts_stage(after_header, prev_header, options.limits) matches Ok(c) && c.0 == vc
            && c.1 == fc);
        if let Err(e) = p.parse_vertices() {
            return Err(e);
        }
        let ghost after_vertices = p.remaining();
        let ghost prev_vertices = p.prev();
        assert(after_vertices == after_counts.skip(vc));
        assert(prev_vertices == last_read(after_counts, prev_counts, vc));
        let ghost vs = vertices_stage(after_counts, prev_counts, vc as nat, options.color_format)->Ok_0;
        assert(p.document@.0 == vs) by {
            assert(Seq::<VertexModel>::empty() + vs == vs);
        }
        if let Err(e) = p.parse_faces() {
            return Err(e);
        }
        let ghost fs = faces_stage(after_vertices, prev_vertices, fc as nat, options)->Ok_0;
        proof {
            lemma_faces_stage(after_vertices, prev_vertices, fc as nat, options);
        }
        assert(p.document@.1 == fs) by {
            assert(Seq::<FaceModel>::empty() + fs == fs);
        }
        assert(p.face_line_indices() == line_indices(after_vertices).take(fc)) by {
            let read = line_indices(after_vertices.take(fc));
            assert(Seq::<int>::empty() + read == read);
            assert(line_indices(after_vertices.take(fc)) == line_indices(after_vertices).take(fc));
        }
        proof {
            lemma_indices_check_prefix(fs, line_indices(after_vertices), vc);
        }
        if let Err(e) = p.check_face_indices() {
            return Err(e);
        }
        Ok(p.finalize())
    }
}

/// The check of faces against their line indices depends only on as many
/// line indices as there are faces.
pub proof fn lemma_indices_check_prefix(faces: Seq<FaceModel>, lines: Seq<int>, vertex_count: int)
    requires
        faces.len() <= lines.len(),
    ensures
        indices_check(faces, lines.take(faces.len() as int), vertex_count) == indices_check(
            faces,
            lines,
            vertex_count,
        ),
    decreases faces.len(),
{
    if faces.len() > 0 {
        assert(lines.take(faces.len() as int).drop_first() == lines.drop_first().take(
            faces.len() - 1,
        ));
        lemma_indices_check_prefix(faces.drop_first(), lines.drop_first(), vertex_count);
    }
}

} // verus!
