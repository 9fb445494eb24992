//! What parsing a document means, stated over its logical lines.
use vstd::prelude::*;

use crate::geometry::color::{color_in_unit, opaque_channel, ChannelModel, ColorModel};
use crate::geometry::decimal::decimal_of;
use crate::geometry::mesh::{FaceModel, MeshModel, VertexModel};
use crate::geometry::position::PositionModel;
use crate::parser::color_format::ColorFormat;
use crate::parser::error::Kind;
use crate::parser::options::{Limits, Options};
use crate::parser::utils::{tokens, unsigned_of};

verus! {

/// A parse error as the model sees it: its kind and line index.
pub type Fault = (Kind, int);

/// The logical lines still to read: each with its physical line index.
pub type Lines = Seq<(int, Seq<char>)>;

/// The value of a token that reads as a `usize`.
pub open spec fn count_of(t: Seq<char>) -> int {
    unsigned_of(t, usize::MAX as int)->0
}

/// Whether a token reads as a `usize`.
pub open spec fn is_count(t: Seq<char>) -> bool {
    unsigned_of(t, usize::MAX as int) is Some
}

/// The counts line: two or three counts (vertices, faces and optionally
/// edges), the first two within the limits.
pub open spec fn counts_of(ts: Seq<Seq<char>>, line: int, limits: Limits) -> Result<
    (int, int, int),
    Fault,
> {
    if !(forall|k: int| 0 <= k < ts.len() ==> is_count(#[trigger] ts[k])) || !(ts.len() == 2
        || ts.len() == 3) {
        Err((Kind::InvalidCounts, line))
    } else if count_of(ts[0]) > limits.vertex_count {
        Err((Kind::LimitExceeded, line))
    } else if count_of(ts[1]) > limits.face_count {
        Err((Kind::LimitExceeded, line))
    } else {
        Ok(
            (
                count_of(ts[0]),
                count_of(ts[1]),
                if ts.len() == 3 {
                    count_of(ts[2])
                } else {
                    0
                },
            ),
        )
    }
}

/// A position from exactly three numerals.
pub open spec fn position_of(ts: Seq<Seq<char>>, line: int) -> Result<PositionModel, Fault> {
    if ts.len() != 3 || !(forall|k: int| 0 <= k < 3 ==> decimal_of(#[trigger] ts[k]) is Some) {
        Err((Kind::InvalidVertexPosition, line))
    } else {
        Ok((decimal_of(ts[0])->0, decimal_of(ts[1])->0, decimal_of(ts[2])->0))
    }
}

/// The channel a color token gives under a format, if it is one.
pub open spec fn channel_of(t: Seq<char>, format: ColorFormat) -> Option<ChannelModel> {
    if format.spec_is_float() {
        match decimal_of(t) {
            Some(d) => Some(ChannelModel::Decimal(d)),
            None => None,
        }
    } else {
        match unsigned_of(t, 255) {
            Some(v) => Some(ChannelModel::Byte(v as u8)),
            None => None,
        }
    }
}

/// The alpha channel when a format has none: 1 for decimals, 255 for bytes.
pub open spec fn default_alpha(format: ColorFormat) -> ChannelModel {
    if format.spec_is_float() {
        opaque_channel()
    } else {
        ChannelModel::Byte(255)
    }
}

/// A color from exactly as many tokens as the format has channels, each a
/// channel of the format, all in the unit interval.
pub open spec fn color_of(ts: Seq<Seq<char>>, format: ColorFormat) -> Option<ColorModel> {
    if ts.len() != format.spec_channel_count() || !(forall|k: int|
        0 <= k < ts.len() ==> channel_of(#[trigger] ts[k], format) is Some) {
        None
    } else {
        let c = (
            channel_of(ts[0], format)->0,
            channel_of(ts[1], format)->0,
            channel_of(ts[2], format)->0,
            if ts.len() == 4 {
                channel_of(ts[3], format)->0
            } else {
                default_alpha(format)
            },
        );
        if color_in_unit(c) {
            Some(c)
        } else {
            None
        }
    }
}

/// A vertex line: three numerals, then either nothing or exactly one color.
pub open spec fn vertex_of(ts: Seq<Seq<char>>, line: int, format: ColorFormat) -> Result<
    VertexModel,
    Fault,
> {
    if ts.len() < 3 || (ts.len() > 3 && ts.len() - 3 != format.spec_channel_count()) {
        Err((Kind::InvalidVertexPosition, line))
    } else {
        match position_of(ts.take(3), line) {
            Err(e) => Err(e),
            Ok(p) => if ts.len() == 3 {
                Ok((p, None))
            } else {
                match color_of(ts.skip(3), format) {
                    None => Err((Kind::InvalidColor, line)),
                    Some(c) => Ok((p, Some(c))),
                }
            },
        }
    }
}

/// The first `n` tokens as vertex indices.
pub open spec fn indices_of(ts: Seq<Seq<char>>, n: int, line: int) -> Result<Seq<usize>, Fault> {
    if ts.len() < n || !(forall|k: int| 0 <= k < n ==> is_count(#[trigger] ts[k])) {
        Err((Kind::InvalidFaceIndex, line))
    } else {
        Ok(Seq::new(n as nat, |k: int| count_of(ts[k]) as usize))
    }
}

/// A face line: a vertex count `n` (from 3 to the limit), `n` vertex indices,
/// then either nothing or exactly one color.
pub open spec fn face_of(ts: Seq<Seq<char>>, line: int, options: Options) -> Result<
    FaceModel,
    Fault,
> {
    if ts.len() < 4 || !is_count(ts[0]) {
        Err((Kind::InvalidFace, line))
    } else {
        let n = count_of(ts[0]);
        if n > options.limits.face_vertex_count {
            Err((Kind::LimitExceeded, line))
        } else if n < 3 {
            Err((Kind::InvalidFace, line))
        } else {
            match indices_of(ts.skip(1), n, line) {
                Err(e) => Err(e),
                Ok(vs) => {
                    let rest = ts.skip(1 + n);
                    if rest.len() == 0 {
                        Ok((vs, None))
                    } else {
                        match color_of(rest, options.color_format) {
                            None => Err((Kind::InvalidColor, line)),
                            Some(c) => Ok((vs, Some(c))),
                        }
                    }
                }
            }
        }
    }
}

/// The header stage: the first logical line must be `OFF`.
pub open spec fn header_of(lines: Lines) -> Result<(), Fault> {
    if lines.len() == 0 {
        Err((Kind::Empty, 0))
    } else if lines[0].1 != seq!['O', 'F', 'F'] {
        Err((Kind::InvalidHeader, lines[0].0))
    } else {
        Ok(())
    }
}

/// The counts stage, after the line with index `prev`.
pub open spec fn counts_stage(lines: Lines, prev: int, limits: Limits) -> Result<
    (int, int, int),
    Fault,
> {
    if lines.len() == 0 {
        Err((Kind::Missing, prev + 1))
    } else {
        counts_of(tokens(lines[0].1), lines[0].0, limits)
    }
}

/// Prepends the items read so far to what the rest of a stage gives.
pub open spec fn prepend<T>(done: Seq<T>, r: Result<Seq<T>, Fault>) -> Result<Seq<T>, Fault> {
    match r {
        Ok(rest) => Ok(done + rest),
        Err(e) => Err(e),
    }
}

/// The vertex stage: `n` vertex lines, after the line with index `prev`.
pub open spec fn vertices_stage(lines: Lines, prev: int, n: nat, format: ColorFormat) -> Result<
    Seq<VertexModel>,
    Fault,
>
    decreases n,
{
    if n == 0 {
        Ok(Seq::empty())
    } else if lines.len() == 0 {
        Err((Kind::Missing, prev + 1))
    } else {
        match vertex_of(tokens(lines[0].1), lines[0].0, format) {
            Err(e) => Err(e),
            Ok(v) => prepend(
                seq![v],
                vertices_stage(lines.drop_first(), lines[0].0, (n - 1) as nat, format),
            ),
        }
    }
}

/// The face stage: `n` face lines, after the line with index `prev`.
pub open spec fn faces_stage(lines: Lines, prev: int, n: nat, options: Options) -> Result<
    Seq<FaceModel>,
    Fault,
>
    decreases n,
{
    if n == 0 {
        Ok(Seq::empty())
    } else if lines.len() == 0 {
        Err((Kind::Missing, prev + 1))
    } else {
        match face_of(tokens(lines[0].1), lines[0].0, options) {
            Err(e) => Err(e),
            Ok(f) => prepend(
                seq![f],
                faces_stage(lines.drop_first(), lines[0].0, (n - 1) as nat, options),
            ),
        }
    }
}

/// The index of the last line read after `n` more lines, starting after `prev`.
pub open spec fn last_read(lines: Lines, prev: int, n: int) -> int {
    if n == 0 {
        prev
    } else {
        lines[n - 1].0
    }
}

/// Whether every vertex index of a face is below `vertex_count`.
pub open spec fn face_in_range(f: FaceModel, vertex_count: int) -> bool {
    forall|j: int| 0 <= j < f.0.len() ==> #[trigger] f.0[j] < vertex_count
}

/// The check that every face refers to existing vertices; the first face that
/// does not is reported at its line.
pub open spec fn indices_check(faces: Seq<FaceModel>, lines: Seq<int>, vertex_count: int) -> Result<
    (),
    Fault,
>
    decreases faces.len(),
{
    if faces.len() == 0 || lines.len() == 0 {
        Ok(())
    } else if !face_in_range(faces[0], vertex_count) {
        Err((Kind::InvalidFaceIndex, lines[0]))
    } else {
        indices_check(faces.drop_first(), lines.drop_first(), vertex_count)
    }
}

/// The line indices of some logical lines.
pub open spec fn line_indices(lines: Lines) -> Seq<int> {
    lines.map_values(|l: (int, Seq<char>)| l.0)
}

/// What parsing a document with these logical lines gives: the stages in
/// turn, the first fault ending it; lines after the last face are not read.
pub open spec fn parse_lines(lines: Lines, options: Options) -> Result<MeshModel, Fault> {
    match header_of(lines) {
        Err(e) => Err(e),
        Ok(_) => {
            let after_header = lines.drop_first();
            match counts_stage(after_header, lines[0].0, options.limits) {
                Err(e) => Err(e),
                Ok(counts) => {
                    let vc = counts.0;
                    let fc = counts.1;
                    let after_counts = after_header.drop_first();
                    let counts_line = after_header[0].0;
                    match vertices_stage(after_counts, counts_line, vc as nat, options.color_format) {
                        Err(e) => Err(e),
                        Ok(vs) => {
                            let after_vertices = after_counts.skip(vc);
                            let prev = last_read(after_counts, counts_line, vc);
                            match faces_stage(after_vertices, prev, fc as nat, options) {
                                Err(e) => Err(e),
                                Ok(fs) => match indices_check(fs, line_indices(after_vertices), vc) {
                                    Err(e) => Err(e),
                                    Ok(_) => Ok((vs, fs)),
                                },
                            }
                        },
                    }
                },
            }
        },
    }
}

/// A vertex stage that succeeds reads exactly `n` lines, and gives the
/// vertex of each line in order.
pub proof fn lemma_vertices_stage(lines: Lines, prev: int, n: nat, format: ColorFormat)
    requires
        vertices_stage(lines, prev, n, format) is Ok,
    ensures
        n <= lines.len(),
        vertices_stage(lines, prev, n, format)->Ok_0.len() == n,
        forall|k: int|
            0 <= k < n ==> vertex_of(tokens(#[trigger] lines[k].1), lines[k].0, format) == Ok::<
                VertexModel,
                Fault,
            >(vertices_stage(lines, prev, n, format)->Ok_0[k]),
    decreases n,
{
    if n > 0 {
        let rest = lines.drop_first();
        lemma_vertices_stage(rest, lines[0].0, (n - 1) as nat, format);
        let vs = vertices_stage(lines, prev, n, format)->Ok_0;
        let tail = vertices_stage(rest, lines[0].0, (n - 1) as nat, format)->Ok_0;
        assert forall|k: int| 0 <= k < n implies vertex_of(
            tokens(#[trigger] lines[k].1),
            lines[k].0,
            format,
        ) == Ok::<VertexModel, Fault>(vs[k]) by {
            if k > 0 {
                assert(lines[k] == rest[k - 1]);
                assert(vs[k] == tail[k - 1]);
            }
        }
    }
}

/// A face stage that succeeds reads exactly `n` lines, and gives the face of
/// each line in order.
pub proof fn lemma_faces_stage(lines: Lines, prev: int, n: nat, options: Options)
    requires
        faces_stage(lines, prev, n, options) is Ok,
    ensures
        n <= lines.len(),
        faces_stage(lines, prev, n, options)->Ok_0.len() == n,
        forall|k: int|
            0 <= k < n ==> face_of(tokens(#[trigger] lines[k].1), lines[k].0, options) == Ok::<
                FaceModel,
                Fault,
            >(faces_stage(lines, prev, n, options)->Ok_0[k]),
    decreases n,
{
    if n > 0 {
        let rest = lines.drop_first();
        lemma_faces_stage(rest, lines[0].0, (n - 1) as nat, options);
        let fs = faces_stage(lines, prev, n, options)->Ok_0;
        let tail = faces_stage(rest, lines[0].0, (n - 1) as nat, options)->Ok_0;
        assert forall|k: int| 0 <= k < n implies face_of(
            tokens(#[trigger] lines[k].1),
            lines[k].0,
            options,
        ) == Ok::<FaceModel, Fault>(fs[k]) by {
            if k > 0 {
                assert(lines[k] == rest[k - 1]);
                assert(fs[k] == tail[k - 1]);
            }
        }
    }
}

} // verus!
