//! Trusted interface to the compressed matrix holding the next-hop table.
//!
//! The next-hop lookup table is a dense matrix of vertex indices kept in a
//! `matrix::format::Compressed<usize>`. That type's `Element` bound keeps
//! Verus from declaring it directly, so [`NextMatrix`] holds it in a hidden
//! field. Verus sees the matrix through two names — its dimensions and the
//! total map of its entries — and through the wrappers below, whose contracts
//! state what the matrix crate's sources show: a fresh matrix reads zero
//! everywhere, `set` assigns one entry, `get` reads it.

use vstd::prelude::*;

verus! {

/// A dense matrix of vertex indices, backed by a compressed-column matrix of
/// the matrix crate.
#[verifier::external_body]
pub struct NextMatrix {
    inner: matrix::format::Compressed<usize>,
}

/// The (rows, columns) dimensions of the matrix.
pub uninterp spec fn mat_dims(m: NextMatrix) -> (int, int);

/// The entries of the matrix, as a map over in-range positions.
pub uninterp spec fn mat_entries(m: NextMatrix) -> Map<(int, int), usize>;

/// Relies on `matrix::format::Compressed::new`: a rows-by-columns
/// compressed-column matrix with no stored values, whose every entry reads as
/// zero.
#[verifier::external_body]
pub(crate) fn mat_new(rows: usize, columns: usize) -> (m: NextMatrix)
    ensures
        mat_dims(m) == (rows as int, columns as int),
        forall|i: int, j: int| 0 <= i < rows && 0 <= j < columns ==> mat_entries(m)[(i, j)] == 0,
{
    NextMatrix {
        inner: matrix::format::Compressed::new(
            (rows, columns),
            matrix::format::compressed::Variant::Column,
        ),
    }
}

/// Relies on `matrix::format::Compressed::get`: reads the entry at (i, j);
/// positions never assigned read as zero. In-range positions are required,
/// since out-of-range column offsets would be indexed out of bounds.
#[verifier::external_body]
pub(crate) fn mat_get(m: &NextMatrix, i: usize, j: usize) -> (r: usize)
    requires
        i < mat_dims(*m).0,
        j < mat_dims(*m).1,
    ensures
        r == mat_entries(*m)[(i as int, j as int)],
{
    m.inner.get((i, j))
}

/// Relies on `matrix::format::Compressed::set`: assigns the entry at (i, j),
/// leaving every other entry and the dimensions unchanged. In-range positions
/// are required, since out-of-range column offsets would be indexed out of
/// bounds.
#[verifier::external_body]
pub(crate) fn mat_set(m: &mut NextMatrix, i: usize, j: usize, value: usize)
    requires
        i < mat_dims(*old(m)).0,
        j < mat_dims(*old(m)).1,
    ensures
        mat_dims(*final(m)) == mat_dims(*old(m)),
        mat_entries(*final(m)) == mat_entries(*old(m)).insert((i as int, j as int), value),
{
    m.inner.set((i, j), value)
}

/// Relies on the derived `Clone` of `matrix::format::Compressed`: a
/// field-wise copy, so the clone has the same dimensions and entries.
#[verifier::external_body]
pub(crate) fn mat_clone(m: &NextMatrix) -> (r: NextMatrix)
    ensures
        mat_dims(r) == mat_dims(*m),
        mat_entries(r) == mat_entries(*m),
{
    NextMatrix { inner: m.inner.clone() }
}

} // verus!
