use vstd::prelude::*;

verus! {

/// The number of vertices of the airplane mesh: the fuselage (5), the wing
/// box (8) and the tail fin box (8).
pub const AIRPLANE_VERTEX_COUNT: u16 = 21;

/// The airplane mesh's triangles, three vertex indices each, wound
/// counter-clockwise seen from outside: the fuselage's tail cap and four nose
/// sides, the wing's six faces, and the tail fin's five visible faces.
pub open spec fn airplane_index_table() -> Seq<u16> {
    seq![
        0u16, 3u16, 2u16, 0u16, 2u16, 1u16, 0u16, 1u16, 4u16, 1u16, 2u16, 4u16, 2u16, 3u16, 4u16, 3u16, 0u16, 4u16,
        5u16, 9u16, 10u16, 5u16, 10u16, 6u16, 7u16, 8u16, 12u16, 7u16, 12u16, 11u16, 5u16, 7u16, 11u16, 5u16, 11u16, 9u16,
        6u16, 10u16, 12u16, 6u16, 12u16, 8u16, 9u16, 11u16, 12u16, 9u16, 12u16, 10u16, 5u16, 8u16, 7u16, 5u16, 6u16, 8u16,
        13u16, 17u16, 18u16, 13u16, 18u16, 14u16, 15u16, 16u16, 20u16, 15u16, 20u16, 19u16, 13u16, 15u16, 19u16, 13u16, 19u16, 17u16,
        14u16, 18u16, 20u16, 14u16, 20u16, 16u16, 17u16, 19u16, 20u16, 17u16, 20u16, 18u16,
    ]
}

/// Appends the triangle (`a`, `b`, `c`) to an index buffer of whole
/// triangles whose indices all name airplane vertices.
fn push_triangle(indices: &mut Vec<u16>, a: u16, b: u16, c: u16)
    requires
        a < AIRPLANE_VERTEX_COUNT,
        b < AIRPLANE_VERTEX_COUNT,
        c < AIRPLANE_VERTEX_COUNT,
        old(indices)@.len() % 3 == 0,
        forall|i: int| 0 <= i < old(indices)@.len() ==> #[trigger] old(indices)@[i] < AIRPLANE_VERTEX_COUNT,
    ensures
        final(indices)@ == old(indices)@.push(a).push(b).push(c),
        final(indices)@.len() % 3 == 0,
        forall|i: int| 0 <= i < final(indices)@.len() ==> #[trigger] final(indices)@[i] < AIRPLANE_VERTEX_COUNT,
{
    indices.push(a);
    indices.push(b);
    indices.push(c);
}

/// The airplane mesh's index buffer: whole triangles, every index naming one
/// of its vertices.
pub fn airplane_indices() -> (r: Vec<u16>)
    ensures
        r@ == airplane_index_table(),
        r@.len() == 84,
        r@.len() % 3 == 0,
        forall|i: int| 0 <= i < r@.len() ==> #[trigger] r@[i] < AIRPLANE_VERTEX_COUNT,
{
    let mut r: Vec<u16> = Vec::new();
    push_triangle(&mut r, 0, 3, 2);
    push_triangle(&mut r, 0, 2, 1);
    push_triangle(&mut r, 0, 1, 4);
    push_triangle(&mut r, 1, 2, 4);
    push_triangle(&mut r, 2, 3, 4);
    push_triangle(&mut r, 3, 0, 4);
    push_triangle(&mut r, 5, 9, 10);
    push_triangle(&mut r, 5, 10, 6);
    push_triangle(&mut r, 7, 8, 12);
    push_triangle(&mut r, 7, 12, 11);
    push_triangle(&mut r, 5, 7, 11);
    push_triangle(&mut r, 5, 11, 9);
    push_triangle(&mut r, 6, 10, 12);
    push_triangle(&mut r, 6, 12, 8);
    push_triangle(&mut r, 9, 11, 12);
    push_triangle(&mut r, 9, 12, 10);
    push_triangle(&mut r, 5, 8, 7);
    push_triangle(&mut r, 5, 6, 8);
    push_triangle(&mut r, 13, 17, 18);
    push_triangle(&mut r, 13, 18, 14);
    push_triangle(&mut r, 15, 16, 20);
    push_triangle(&mut r, 15, 20, 19);
    push_triangle(&mut r, 13, 15, 19);
    push_triangle(&mut r, 13, 19, 17);
    push_triangle(&mut r, 14, 18, 20);
    push_triangle(&mut r, 14, 20, 16);
    push_triangle(&mut r, 17, 19, 20);
    push_triangle(&mut r, 17, 20, 18);
    assert(r@ =~= airplane_index_table());
    r
}

} // verus!
