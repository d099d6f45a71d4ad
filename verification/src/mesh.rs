//! The white backgrounds of all lines, as one mesh for the graphics device.
use crate::bbox::{triangles, BboxLine, BboxLineView, Vertex};
use vstd::prelude::*;

verus! {

/// The most lines whose triangles can be counted.
pub const MAX_LINES: usize = 715_827_882;

/// The bytes of a vertex: two numbers of position and three of colour.
pub const VERTEX_SIZE: u64 = 20;

/// The bytes of the vertex buffer.
pub const VERTEX_BUFFER_SIZE: u64 = 10_000 * VERTEX_SIZE;

/// The bytes of the index buffer.
pub const INDEX_BUFFER_SIZE: u64 = 10_000 * 2;

/// Corners of rectangles, and triangles as positions among them.
#[derive(Debug)]
pub struct Mesh {
    pub vertices: Vec<Vertex>,
    pub indices: Vec<u32>,
    pub num_indices: u32,
}

/// The contents of lines.
pub open spec fn lines_view(lines: Seq<BboxLine>) -> Seq<BboxLineView> {
    Seq::new(lines.len(), |i: int| lines[i]@)
}

/// Whether no line is without words.
pub open spec fn have_words(lines: Seq<BboxLineView>) -> bool {
    forall|i: int| 0 <= i < lines.len() ==> (#[trigger] lines[i]).words.len() > 0
}

/// The corners of the first line's background, then those of the second, and so
/// on.
pub open spec fn mesh_vertices(lines: Seq<BboxLineView>) -> Seq<Vertex> {
    Seq::new(4 * lines.len(), |k: int| lines[k / 4].corners()[k % 4])
}

/// The triangles of the first line's background, then those of the second, and so
/// on, each over its own corners.
pub open spec fn mesh_indices(lines: nat) -> Seq<u32> {
    Seq::new(6 * lines, |k: int| triangles((4 * (k / 6)) as u32)[k % 6])
}

/// Gathers the backgrounds of all lines, with their corners in pixels.
pub fn build_mesh(lines: &Vec<BboxLine>) -> (r: Mesh)
    requires
        have_words(lines_view(lines@)),
        lines@.len() <= MAX_LINES,
    ensures
        r.vertices@ == mesh_vertices(lines_view(lines@)),
        r.indices@ == mesh_indices(lines@.len()),
        r.num_indices == r.indices@.len(),
{
    let ghost contents = lines_view(lines@);
    let mut vertices: Vec<Vertex> = Vec::new();
    let mut indices: Vec<u32> = Vec::new();
    let mut offset: u32 = 0;
    let mut num_indices: u32 = 0;
    assert(vertices@ =~= mesh_vertices(contents.take(0)));
    assert(indices@ =~= mesh_indices(0));
    for i in 0..lines.len()
        invariant
            contents == lines_view(lines@),
            have_words(contents),
            lines@.len() <= MAX_LINES,
            offset == 4 * i,
            num_indices == 6 * i,
            vertices@ == mesh_vertices(contents.take(i as int)),
            indices@ == mesh_indices(i as nat),
    {
        assert(contents[i as int].words.len() > 0);
        let (mut line_vertices, mut line_indices) = lines[i].to_vertices(offset);
        let ghost corners = line_vertices@;
        offset = offset + line_vertices.len() as u32;
        vertices.append(&mut line_vertices);
        num_indices = num_indices + line_indices.len() as u32;
        indices.append(&mut line_indices);
        assert(vertices@ =~= mesh_vertices(contents.take(i + 1)));
        assert(indices@ =~= mesh_indices((i + 1) as nat));
    }
    assert(contents.take(contents.len() as int) =~= contents);
    Mesh { vertices, indices, num_indices }
}

/// Every index of a mesh points at a vertex of it, and at a corner of the line
/// whose triangle it belongs to.
pub proof fn lemma_mesh_closed(lines: Seq<BboxLineView>, k: int)
    requires
        lines.len() <= MAX_LINES,
        0 <= k < mesh_indices(lines.len()).len(),
    ensures
        0 <= mesh_indices(lines.len())[k] < mesh_vertices(lines).len(),
        mesh_indices(lines.len())[k] as int / 4 == k / 6,
        mesh_vertices(lines)[mesh_indices(lines.len())[k] as int] == lines[k / 6].corners()[
            mesh_indices(lines.len())[k] as int % 4],
{
}

/// Each corner of each line belongs to one of the line's triangles.
pub proof fn lemma_mesh_uses_all_corners(lines: nat, v: int) -> (k: int)
    requires
        lines <= MAX_LINES,
        0 <= v < 4 * lines,
    ensures
        0 <= k < mesh_indices(lines).len(),
        mesh_indices(lines)[k] == v,
        k / 6 == v / 4,
{
    let line = v / 4;
    let corner = v % 4;
    if corner == 3 {
        6 * line + 5
    } else {
        6 * line + corner
    }
}

/// Byte `j` of a word, counted from the least significant one.
pub open spec fn byte_of(word: u32, j: int) -> u8 {
    if j == 0 {
        (word % 0x100) as u8
    } else if j == 1 {
        (word / 0x100 % 0x100) as u8
    } else if j == 2 {
        (word / 0x1_0000 % 0x100) as u8
    } else {
        (word / 0x100_0000) as u8
    }
}

/// The bytes of words in memory, on a machine of this byte order.
pub open spec fn bytes_of(words: Seq<u32>, big_endian: bool) -> Seq<u8> {
    Seq::new(
        4 * words.len(),
        |k: int|
            byte_of(
                words[k / 4],
                if big_endian {
                    3 - k % 4
                } else {
                    k % 4
                },
            ),
    )
}

/// Word `i` of those that were laid out as bytes.
pub open spec fn word_at(bytes: Seq<u8>, i: int, big_endian: bool) -> int {
    if big_endian {
        bytes[4 * i] * 0x100_0000 + bytes[4 * i + 1] * 0x1_0000 + bytes[4 * i + 2] * 0x100 + bytes[4
            * i + 3]
    } else {
        bytes[4 * i + 3] * 0x100_0000 + bytes[4 * i + 2] * 0x1_0000 + bytes[4 * i + 1] * 0x100
            + bytes[4 * i]
    }
}

/// A device of the same byte order reads back the words that were laid out.
pub proof fn lemma_words_read_back(words: Seq<u32>, i: int, big_endian: bool)
    requires
        0 <= i < words.len(),
    ensures
        word_at(bytes_of(words, big_endian), i, big_endian) == words[i],
{
    let w = words[i];
    let bytes = bytes_of(words, big_endian);
    assert((4 * i) / 4 == i && (4 * i + 1) / 4 == i && (4 * i + 2) / 4 == i && (4 * i + 3) / 4 == i);
    assert((4 * i) % 4 == 0 && (4 * i + 1) % 4 == 1 && (4 * i + 2) % 4 == 2 && (4 * i + 3) % 4 == 3);
    assert(w == (w / 0x100_0000) * 0x100_0000 + (w / 0x1_0000 % 0x100) * 0x1_0000 + (w / 0x100 % 0x100)
        * 0x100 + w % 0x100);
}

/// Calls [`bytemuck::cast_slice`] from `u32` to `u8`. Trusted: the result is the
/// memory of the words, that is four bytes for each word, in the byte order of the
/// machine, which is the same for all words. Which byte order the machine has is
/// left open. The call does not panic: bytes need no alignment and any number of
/// words is a whole number of bytes.
#[verifier::external_body]
fn cast_to_bytes(words: &[u32]) -> (r: &[u8])
    ensures
        r@ == bytes_of(words@, false) || r@ == bytes_of(words@, true),
{
    bytemuck::cast_slice(words)
}

/// Whether these bytes are the memory of words on this machine, as a call of
/// [`cast_to_bytes`] shows it.
pub closed spec fn is_memory_of(bytes: Seq<u8>, words: Seq<u32>) -> bool {
    exists|s: &[u32], r: &[u8]|
        s@ == words && r@ == bytes && #[trigger] call_ensures(cast_to_bytes, (s,), r)
}

/// The memory of words, to be written to a buffer of the device.
pub fn buffer_bytes(words: &Vec<u32>) -> (r: &[u8])
    ensures
        r@ == bytes_of(words@, false) || r@ == bytes_of(words@, true),
        is_memory_of(r@, words@),
{
    cast_to_bytes(words.as_slice())
}

/// The numbers of a vertex: its position, then its colour.
pub open spec fn vertex_words(vertex: Vertex) -> Seq<u32> {
    seq![
        vertex.position.x.bits,
        vertex.position.y.bits,
        vertex.color.r.bits,
        vertex.color.g.bits,
        vertex.color.b.bits,
    ]
}

/// The numbers of all vertices, one vertex after the other.
pub open spec fn vertices_words(vertices: Seq<Vertex>) -> Seq<u32> {
    Seq::new(5 * vertices.len(), |k: int| vertex_words(vertices[k / 5])[k % 5])
}

/// Lays out vertices as the numbers of the vertex buffer.
pub fn vertex_data(vertices: &Vec<Vertex>) -> (r: Vec<u32>)
    ensures
        r@ == vertices_words(vertices@),
{
    let mut words: Vec<u32> = Vec::new();
    assert(words@ =~= vertices_words(vertices@.take(0)));
    for i in 0..vertices.len()
        invariant
            words@ == vertices_words(vertices@.take(i as int)),
    {
        let vertex = vertices[i];
        words.push(vertex.position.x.bits);
        words.push(vertex.position.y.bits);
        words.push(vertex.color.r.bits);
        words.push(vertex.color.g.bits);
        words.push(vertex.color.b.bits);
        assert(words@ =~= vertices_words(vertices@.take(i + 1)));
    }
    assert(vertices@.take(vertices@.len() as int) =~= vertices@);
    words
}

/// Vertex `i` takes the bytes from `i` times [`VERTEX_SIZE`] on: eight of position,
/// then twelve of colour.
pub proof fn lemma_vertex_layout(vertices: Seq<Vertex>, i: int, big_endian: bool)
    requires
        0 <= i < vertices.len(),
    ensures
        bytes_of(vertices_words(vertices), big_endian).len() == VERTEX_SIZE * vertices.len(),
        bytes_of(vertices_words(vertices), big_endian).subrange(
            VERTEX_SIZE * i,
            VERTEX_SIZE * i + 8,
        ) == bytes_of(seq![vertices[i].position.x.bits, vertices[i].position.y.bits], big_endian),
        bytes_of(vertices_words(vertices), big_endian).subrange(
            VERTEX_SIZE * i + 8,
            VERTEX_SIZE * (i + 1),
        ) == bytes_of(
            seq![vertices[i].color.r.bits, vertices[i].color.g.bits, vertices[i].color.b.bits],
            big_endian,
        ),
{
    let all = bytes_of(vertices_words(vertices), big_endian);
    let position = seq![vertices[i].position.x.bits, vertices[i].position.y.bits];
    let color = seq![vertices[i].color.r.bits, vertices[i].color.g.bits, vertices[i].color.b.bits];
    assert forall|k: int| 0 <= k < 8 implies all[20 * i + k] == bytes_of(position, big_endian)[k] by {
        assert((20 * i + k) / 4 == 5 * i + k / 4);
        assert((5 * i + k / 4) / 5 == i && (5 * i + k / 4) % 5 == k / 4);
    }
    assert forall|k: int| 0 <= k < 12 implies all[20 * i + 8 + k] == bytes_of(color, big_endian)[k] by {
        assert((20 * i + 8 + k) / 4 == 5 * i + 2 + k / 4);
        assert((5 * i + 2 + k / 4) / 5 == i && (5 * i + 2 + k / 4) % 5 == 2 + k / 4);
    }
    assert(all.subrange(20 * i, 20 * i + 8) =~= bytes_of(position, big_endian));
    assert(all.subrange(20 * i + 8, 20 * (i + 1)) =~= bytes_of(color, big_endian));
}

/// The backgrounds fit the vertex buffer up to 2500 lines and the index buffer up to
/// 833, whatever their corners are. So up to a thousand vertices both buffers hold
/// them.
pub proof fn lemma_buffers_hold(vertices: Seq<Vertex>, lines: nat, big_endian: bool)
    requires
        vertices.len() == 4 * lines,
    ensures
        bytes_of(vertices_words(vertices), big_endian).len() <= VERTEX_BUFFER_SIZE <==> lines
            <= 2500,
        bytes_of(mesh_indices(lines), big_endian).len() <= INDEX_BUFFER_SIZE <==> lines <= 833,
        vertices.len() <= 1000 ==> bytes_of(vertices_words(vertices), big_endian).len()
            <= VERTEX_BUFFER_SIZE && bytes_of(mesh_indices(lines), big_endian).len()
            <= INDEX_BUFFER_SIZE,
{
}

/// The contents of lines are those of each line, in order, and lines have words if
/// none is empty.
pub proof fn lemma_lines_contents(lines: Seq<BboxLine>, i: int)
    requires
        0 <= i < lines.len(),
    ensures
        lines_view(lines).len() == lines.len(),
        lines_view(lines)[i] == lines[i]@,
        have_words(lines_view(lines)) ==> lines[i].words@.len() > 0,
        (forall|j: int| 0 <= j < lines.len() ==> (#[trigger] lines[j]).words@.len() > 0)
            ==> have_words(lines_view(lines)),
{
    if have_words(lines_view(lines)) {
        assert(lines_view(lines)[i].words.len() > 0);
    }
    if forall|j: int| 0 <= j < lines.len() ==> (#[trigger] lines[j]).words@.len() > 0 {
        assert forall|j: int| 0 <= j < lines.len() implies (
        #[trigger] lines_view(lines)[j]).words.len() > 0 by {
            assert(lines[j].words@.len() > 0);
        }
    }
}

/// A mesh has six indices for each line, and entry `j` of line `i` is the corner 0, 1,
/// 2, 2, 1 or 3 after the first corner of the line, which is vertex `4 * i`.
pub proof fn lemma_mesh_index(lines: &Vec<BboxLine>, r: Mesh, i: int, j: int)
    requires
        have_words(lines_view(lines@)),
        lines@.len() <= MAX_LINES,
        call_ensures(build_mesh, (lines,), r),
        0 <= i < lines@.len(),
        0 <= j < 6,
    ensures
        r.num_indices == 6 * lines@.len(),
        r.indices@.len() == 6 * lines@.len(),
        r.indices@[6 * i + j] == 4 * i + (if j < 3 {
            j
        } else if j < 5 {
            5 - j
        } else {
            3
        }),
{
    assert((6 * i + j) / 6 == i && (6 * i + j) % 6 == j);
    assert(r.indices@[6 * i + j] == triangles((4 * i) as u32)[j]);
}

/// A mesh has four vertices for each line, in order: the corners that the line has by
/// itself.
pub proof fn lemma_mesh_corner(
    lines: &Vec<BboxLine>,
    r: Mesh,
    i: int,
    offset: u32,
    own: (Vec<Vertex>, Vec<u32>),
    c: int,
)
    requires
        have_words(lines_view(lines@)),
        lines@.len() <= MAX_LINES,
        call_ensures(build_mesh, (lines,), r),
        0 <= i < lines@.len(),
        offset + 3 <= u32::MAX,
        call_ensures(BboxLine::to_vertices, (&lines@[i], offset), own),
        0 <= c < 4,
    ensures
        r.vertices@.len() == 4 * lines@.len(),
        r.vertices@[4 * i + c] == own.0@[c],
{
    lemma_lines_contents(lines@, i);
    assert((4 * i + c) / 4 == i && (4 * i + c) % 4 == c);
    assert(r.vertices@[4 * i + c] == lines_view(lines@)[i].corners()[c]);
}

/// A mesh without lines is empty.
pub proof fn lemma_mesh_of_none(lines: &Vec<BboxLine>, r: Mesh)
    requires
        lines@.len() == 0,
        call_ensures(build_mesh, (lines,), r),
    ensures
        r.vertices@.len() == 0,
        r.indices@.len() == 0,
        r.num_indices == 0,
{
}

/// The largest number of lines is the largest for which the indices can be counted in
/// 32 bits; then the vertices can too. A vertex takes five numbers of four bytes, and
/// the buffers hold ten thousand vertices and ten thousand indices of two bytes.
pub proof fn lemma_sizes()
    ensures
        6 * MAX_LINES <= u32::MAX < 6 * (MAX_LINES + 1),
        4 * MAX_LINES + 3 <= u32::MAX,
        VERTEX_SIZE == 5 * 4,
        VERTEX_BUFFER_SIZE == 200_000,
        INDEX_BUFFER_SIZE == 20_000,
{
}

/// The data of vertices holds five numbers for each, in order: its position across and
/// down, and its parts of red, green and blue.
pub proof fn lemma_vertex_data(vertices: &Vec<Vertex>, r: Vec<u32>, i: int)
    requires
        call_ensures(vertex_data, (vertices,), r),
        0 <= i < vertices@.len(),
    ensures
        r@.len() == 5 * vertices@.len(),
        r@[5 * i] == vertices@[i].position.x.bits,
        r@[5 * i + 1] == vertices@[i].position.y.bits,
        r@[5 * i + 2] == vertices@[i].color.r.bits,
        r@[5 * i + 3] == vertices@[i].color.g.bits,
        r@[5 * i + 4] == vertices@[i].color.b.bits,
{
    assert((5 * i) / 5 == i && (5 * i) % 5 == 0);
    assert((5 * i + 1) / 5 == i && (5 * i + 1) % 5 == 1);
    assert((5 * i + 2) / 5 == i && (5 * i + 2) % 5 == 2);
    assert((5 * i + 3) / 5 == i && (5 * i + 3) % 5 == 3);
    assert((5 * i + 4) / 5 == i && (5 * i + 4) % 5 == 4);
}

/// Four bytes stand for each word, from the least significant to the most significant
/// one or the other way round, and the same way for all words.
pub proof fn lemma_bytes_read_back(words: &Vec<u32>, r: &[u8], i: int, j: int)
    requires
        call_ensures(buffer_bytes, (words,), r),
        0 <= i < words@.len(),
        0 <= j < words@.len(),
    ensures
        r@.len() == 4 * words@.len(),
        ({
            let rising = |k: int|
                words@[k] == r@[4 * k] + 0x100 * r@[4 * k + 1] + 0x1_0000 * r@[4 * k + 2]
                    + 0x100_0000 * r@[4 * k + 3];
            let falling = |k: int|
                words@[k] == r@[4 * k + 3] + 0x100 * r@[4 * k + 2] + 0x1_0000 * r@[4 * k + 1]
                    + 0x100_0000 * r@[4 * k];
            rising(i) && rising(j) || falling(i) && falling(j)
        }),
{
    lemma_words_read_back(words@, i, false);
    lemma_words_read_back(words@, j, false);
    lemma_words_read_back(words@, i, true);
    lemma_words_read_back(words@, j, true);
}

/// The memory of words is what a call of [`cast_to_bytes`] hands out for them, and
/// nothing else.
proof fn lemma_memory_is_cast(words: Seq<u32>, bytes: Seq<u8>)
    ensures
        is_memory_of(bytes, words) <==> exists|s: &[u32], r: &[u8]|
            s@ == words && r@ == bytes && #[trigger] call_ensures(cast_to_bytes, (s,), r),
{
}

} // verus!
