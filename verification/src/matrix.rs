//! Transposition of a 3-by-3 integer matrix.
use vstd::prelude::*;

verus! {

/// Transposes a 3-by-3 matrix: element (x, y) of the result is element
/// (y, x) of the input.
pub fn transpose(matrix: [[i32; 3]; 3]) -> (result: [[i32; 3]; 3])
    ensures
        forall|x: int, y: int| 0 <= x < 3 && 0 <= y < 3 ==> result[x][y] == matrix[y][x],
{
    [
        [matrix[0][0], matrix[1][0], matrix[2][0]],
        [matrix[0][1], matrix[1][1], matrix[2][1]],
        [matrix[0][2], matrix[1][2], matrix[2][2]],
    ]
}

} // verus!
