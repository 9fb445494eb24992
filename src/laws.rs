//! Facts that hold of every document, proved from the model of parsing.
use vstd::prelude::*;

use crate::geometry::mesh::{FaceModel, MeshModel};
use crate::parser::error::Kind;
use crate::parser::iter::{document_lines, lemma_logical_lines};
use crate::parser::model::{
    count_of, counts_of, counts_stage, face_in_range, face_of, faces_stage, header_of,
    indices_check, indices_of, is_count, last_read, lemma_faces_stage, lemma_vertices_stage,
    line_indices, parse_lines, vertex_of, vertices_stage, Fault, Lines,
};
use crate::parser::options::Options;
use crate::parser::utils::{
    clean, hash_from, is_white, lead_from, lemma_unsigned_range, tokens, trail_to,
};

verus! {

/// The counts a document that parses declares: from its second logical line.
pub open spec fn declared_counts(lines: Lines, options: Options) -> (int, int, int) {
    counts_of(tokens(lines[1].1), lines[1].0, options.limits)->Ok_0
}

/// A document that parses gives exactly as many vertices and faces as its
/// counts line declares, each read from its own line in the order of the
/// lines: vertex `k` from the `k`-th line after the counts, and face `k` from
/// the `k`-th line after the vertices.
pub proof fn lemma_mesh_follows_lines(text: Seq<char>, options: Options)
    requires
        parse_lines(document_lines(text), options) is Ok,
    ensures
        ({
            let lines = document_lines(text);
            let m: MeshModel = parse_lines(lines, options)->Ok_0;
            let c = declared_counts(lines, options);
            &&& m.0.len() == c.0
            &&& m.1.len() == c.1
            &&& 2 + c.0 + c.1 <= lines.len()
            &&& forall|k: int|
                0 <= k < c.0 ==> vertex_of(
                    tokens(#[trigger] lines[2 + k].1),
                    lines[2 + k].0,
                    options.color_format,
                ) == Ok::<_, Fault>(m.0[k])
            &&& forall|k: int|
                0 <= k < c.1 ==> face_of(
                    tokens(#[trigger] lines[2 + c.0 + k].1),
                    lines[2 + c.0 + k].0,
                    options,
                ) == Ok::<_, Fault>(m.1[k])
        }),
{
    let lines = document_lines(text);
    assert(header_of(lines) is Ok);
    let after_header = lines.drop_first();
    let cs = counts_stage(after_header, lines[0].0, options.limits);
    assert(cs is Ok);
    assert(after_header[0] == lines[1]);
    let c = cs->Ok_0;
    assert(c == declared_counts(lines, options));
    let ts = tokens(lines[1].1);
    assert(is_count(ts[0]) && is_count(ts[1]));
    lemma_unsigned_range(ts[0], usize::MAX as int);
    lemma_unsigned_range(ts[1], usize::MAX as int);
    let vc = c.0;
    let fc = c.1;
    let after_counts = after_header.drop_first();
    let vsr = vertices_stage(after_counts, after_header[0].0, vc as nat, options.color_format);
    assert(vsr is Ok);
    lemma_vertices_stage(after_counts, after_header[0].0, vc as nat, options.color_format);
    let after_vertices = after_counts.skip(vc);
    let prev_vertices = last_read(after_counts, after_header[0].0, vc);
    let fsr = faces_stage(after_vertices, prev_vertices, fc as nat, options);
    assert(fsr is Ok);
    lemma_faces_stage(after_vertices, prev_vertices, fc as nat, options);
    assert(parse_lines(lines, options)->Ok_0 == (vsr->Ok_0, fsr->Ok_0));
    assert(after_vertices.len() == after_counts.len() - vc);
    assert forall|k: int| 0 <= k < vc implies #[trigger] lines[2 + k] == after_counts[k] by {
        assert(after_counts[k] == after_header[k + 1]);
    }
    assert forall|k: int| 0 <= k < fc implies #[trigger] lines[2 + vc + k] == after_vertices[k] by {
        assert(after_vertices[k] == after_counts[vc + k]);
        assert(after_counts[vc + k] == after_header[vc + k + 1]);
    }
}

/// The vertex indices of a face are the `n` tokens after its leading count
/// `n`, in the order written.
pub proof fn lemma_face_indices(ts: Seq<Seq<char>>, line: int, options: Options)
    requires
        face_of(ts, line, options) is Ok,
    ensures
        face_of(ts, line, options)->Ok_0.0.len() == count_of(ts[0]),
        forall|j: int|
            0 <= j < count_of(ts[0]) ==> face_of(ts, line, options)->Ok_0.0[j] as int == count_of(
                #[trigger] ts[1 + j],
            ),
{
    let n = count_of(ts[0]);
    let rest = ts.skip(1);
    assert(indices_of(rest, n, line) is Ok);
    assert forall|j: int| 0 <= j < n implies #[trigger] ts[1 + j] == rest[j] by {}
    assert forall|j: int| 0 <= j < n implies face_of(ts, line, options)->Ok_0.0[j] as int == count_of(
        #[trigger] ts[1 + j],
    ) by {
        assert(is_count(rest[j]));
        lemma_unsigned_range(rest[j], usize::MAX as int);
    }
}

/// Every face of a parsed document lists exactly as many vertex indices as
/// the count that opens its line, in the order written.
pub proof fn lemma_faces_keep_indices(text: Seq<char>, options: Options)
    requires
        parse_lines(document_lines(text), options) is Ok,
    ensures
        ({
            let lines = document_lines(text);
            let m: MeshModel = parse_lines(lines, options)->Ok_0;
            let c = declared_counts(lines, options);
            forall|k: int|
                0 <= k < m.1.len() ==> {
                    let ts = tokens(#[trigger] lines[2 + c.0 + k].1);
                    &&& m.1[k].0.len() == count_of(ts[0])
                    &&& forall|j: int|
                        0 <= j < count_of(ts[0]) ==> m.1[k].0[j] as int == count_of(
                            #[trigger] ts[1 + j],
                        )
                }
        }),
{
    lemma_mesh_follows_lines(text, options);
    let lines = document_lines(text);
    let c = declared_counts(lines, options);
    assert forall|k: int| 0 <= k < c.1 implies {
        let ts = tokens(#[trigger] lines[2 + c.0 + k].1);
        &&& parse_lines(lines, options)->Ok_0.1[k].0.len() == count_of(ts[0])
        &&& forall|j: int|
            0 <= j < count_of(ts[0]) ==> parse_lines(lines, options)->Ok_0.1[k].0[j] as int
                == count_of(#[trigger] ts[1 + j])
    } by {
        lemma_face_indices(tokens(lines[2 + c.0 + k].1), lines[2 + c.0 + k].0, options);
    }
}

/// A check of faces against their lines that passes leaves every face within
/// range.
proof fn lemma_indices_check_ok(faces: Seq<FaceModel>, lines: Seq<int>, vertex_count: int)
    requires
        faces.len() <= lines.len(),
        indices_check(faces, lines, vertex_count) is Ok,
    ensures
        forall|k: int| 0 <= k < faces.len() ==> face_in_range(#[trigger] faces[k], vertex_count),
    decreases faces.len(),
{
    if faces.len() > 0 {
        lemma_indices_check_ok(faces.drop_first(), lines.drop_first(), vertex_count);
        assert forall|k: int| 0 <= k < faces.len() implies face_in_range(
            #[trigger] faces[k],
            vertex_count,
        ) by {
            if k > 0 {
                assert(faces[k] == faces.drop_first()[k - 1]);
            }
        }
    }
}

/// Every mesh that parsing gives is well formed: each face has at least three
/// vertex indices, and each index names one of the mesh's vertices.
pub proof fn lemma_parsed_mesh_valid(text: Seq<char>, options: Options)
    requires
        parse_lines(document_lines(text), options) is Ok,
    ensures
        ({
            let m: MeshModel = parse_lines(document_lines(text), options)->Ok_0;
            forall|k: int|
                0 <= k < m.1.len() ==> {
                    &&& (#[trigger] m.1[k]).0.len() >= 3
                    &&& forall|j: int| 0 <= j < m.1[k].0.len() ==> m.1[k].0[j] < m.0.len()
                }
        }),
{
    lemma_mesh_follows_lines(text, options);
    let lines = document_lines(text);
    let m = parse_lines(lines, options)->Ok_0;
    let c = declared_counts(lines, options);
    let after_header = lines.drop_first();
    let after_counts = after_header.drop_first();
    let after_vertices = after_counts.skip(c.0);
    assert(after_header[0] == lines[1]);
    assert(counts_stage(after_header, lines[0].0, options.limits)->Ok_0 == c);
    assert(indices_check(m.1, line_indices(after_vertices), c.0) is Ok);
    lemma_indices_check_ok(m.1, line_indices(after_vertices), c.0);
    assert forall|k: int| 0 <= k < m.1.len() implies {
        &&& (#[trigger] m.1[k]).0.len() >= 3
        &&& forall|j: int| 0 <= j < m.1[k].0.len() ==> m.1[k].0[j] < m.0.len()
    } by {
        let ts = tokens(lines[2 + c.0 + k].1);
        lemma_face_indices(ts, lines[2 + c.0 + k].0, options);
        assert(face_in_range(m.1[k], c.0));
    }
}

/// A vertex count above its limit is reported as `LimitExceeded` at the
/// counts line itself, before any vertex line is read.
pub proof fn lemma_vertex_limit(text: Seq<char>, options: Options)
    requires
        document_lines(text).len() >= 2,
        header_of(document_lines(text)) is Ok,
        ({
            let ts = tokens(document_lines(text)[1].1);
            &&& ts.len() == 2 || ts.len() == 3
            &&& forall|k: int| 0 <= k < ts.len() ==> is_count(#[trigger] ts[k])
            &&& count_of(ts[0]) > options.limits.vertex_count
        }),
    ensures
        parse_lines(document_lines(text), options) == Err::<MeshModel, Fault>(
            (Kind::LimitExceeded, document_lines(text)[1].0),
        ),
{
    let lines = document_lines(text);
    assert(lines.drop_first()[0] == lines[1]);
}

/// A document without logical lines is `Empty` at line 0; one whose first
/// logical line is not exactly `OFF` has an `InvalidHeader` at that line.
pub proof fn lemma_header(text: Seq<char>, options: Options)
    ensures
        document_lines(text).len() == 0 ==> parse_lines(document_lines(text), options) == Err::<
            MeshModel,
            Fault,
        >((Kind::Empty, 0)),
        document_lines(text).len() > 0 && document_lines(text)[0].1 != seq!['O', 'F', 'F']
            ==> parse_lines(document_lines(text), options) == Err::<MeshModel, Fault>(
            (Kind::InvalidHeader, document_lines(text)[0].0),
        ),
{
}

/// Positions before a `#` are found the same in any two lines that agree up
/// to it.
proof fn lemma_agree_hash(a: Seq<char>, b: Seq<char>, i: int, h: int)
    requires
        0 <= i <= h < a.len(),
        h < b.len(),
        a[h] == '#',
        b[h] == '#',
        forall|k: int| i <= k < h ==> a[k] == b[k] && #[trigger] a[k] != '#',
    ensures
        hash_from(a, i) == h,
        hash_from(b, i) == h,
    decreases h - i,
{
    if i < h {
        assert(a[i] != '#');
        lemma_agree_hash(a, b, i + 1, h);
    }
}

proof fn lemma_agree_lead(a: Seq<char>, b: Seq<char>, i: int, end: int)
    requires
        0 <= i <= end <= a.len(),
        end <= b.len(),
        forall|k: int| i <= k < end ==> #[trigger] a[k] == b[k],
    ensures
        lead_from(a, i, end) == lead_from(b, i, end),
    decreases end - i,
{
    if i < end {
        assert(a[i] == b[i]);
        lemma_agree_lead(a, b, i + 1, end);
    }
}

proof fn lemma_agree_trail(a: Seq<char>, b: Seq<char>, start: int, end: int)
    requires
        0 <= start <= end <= a.len(),
        end <= b.len(),
        forall|k: int| start <= k < end ==> #[trigger] a[k] == b[k],
    ensures
        trail_to(a, start, end) == trail_to(b, start, end),
    decreases end - start,
{
    if start < end {
        assert(a[end - 1] == b[end - 1]);
        lemma_agree_trail(a, b, start, end - 1);
    }
}

/// A comment changes nothing: a line without `#` followed by `#` and any text
/// cleans to what the line alone cleans to, so both give the same tokens.
pub proof fn lemma_comment_ignored(s: Seq<char>, comment: Seq<char>)
    requires
        forall|k: int| 0 <= k < s.len() ==> #[trigger] s[k] != '#',
    ensures
        clean(s + seq!['#'] + comment) == clean(s),
        tokens(clean(s + seq!['#'] + comment)) == tokens(clean(s)),
{
    let t = s + seq!['#'] + comment;
    let h = s.len() as int;
    assert(t[h] == '#');
    let s2 = s.push('#');
    assert(s2[h] == '#');
    assert forall|k: int| 0 <= k < h implies t[k] == s2[k] && #[trigger] t[k] != '#' by {
        assert(t[k] == s[k]);
        assert(s2[k] == s[k]);
    }
    lemma_agree_hash(t, s2, 0, h);
    lemma_hash_of_plain(s, 0);
    assert forall|k: int| 0 <= k < h implies #[trigger] t[k] == s[k] by {}
    lemma_agree_lead(t, s, 0, h);
    let a = lead_from(s, 0, h);
    crate::parser::utils::lemma_lead_bounds(s, 0, h);
    lemma_agree_trail(t, s, a, h);
    let b = trail_to(s, a, h);
    crate::parser::utils::lemma_trail_bounds(s, a, h);
    assert(t.subrange(a, b) == s.subrange(a, b));
}

proof fn lemma_hash_of_plain(s: Seq<char>, i: int)
    requires
        0 <= i <= s.len(),
        forall|k: int| 0 <= k < s.len() ==> #[trigger] s[k] != '#',
    ensures
        hash_from(s, i) == s.len(),
    decreases s.len() - i,
{
    if i < s.len() {
        assert(s[i] != '#');
        lemma_hash_of_plain(s, i + 1);
    }
}

/// A line that holds only blanks, or only blanks before a `#`, cleans to
/// nothing; and no logical line of a document is empty, so such lines never
/// reach the parser.
pub proof fn lemma_blank_lines_dropped(text: Seq<char>, line: Seq<char>)
    ensures
        (forall|k: int| 0 <= k < hash_from(line, 0) ==> is_white(#[trigger] line[k])) ==> clean(
            line,
        ).len() == 0,
        forall|k: int|
            0 <= k < document_lines(text).len() ==> (#[trigger] document_lines(text)[k]).1.len()
                > 0,
{
    crate::parser::utils::lemma_hash_bounds(line, 0);
    let h = hash_from(line, 0);
    crate::parser::utils::lemma_lead_bounds(line, 0, h);
    if forall|k: int| 0 <= k < h ==> is_white(#[trigger] line[k]) {
        let a = lead_from(line, 0, h);
        if a < h {
            assert(is_white(line[a]));
        }
        crate::parser::utils::lemma_trail_bounds(line, a, h);
    }
    lemma_logical_lines(text, 0, 0);
}

} // verus!
