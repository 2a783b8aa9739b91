//! The write-once cell that remembers a resolved attribute value.
use vstd::prelude::*;
use lazycell::LazyCell;

verus! {

/// `lazycell::LazyCell`: a cell that is empty until it is filled, and then
/// keeps what it was filled with.
#[verifier::external_type_specification]
#[verifier::external_body]
#[verifier::reject_recursive_types(T)]
pub struct ExLazyCell<T>(LazyCell<T>);

/// What a cell holds: `None` while it is empty, then the value it was filled
/// with. The value is itself the byte range of an attribute's value, or
/// `None` for an attribute that the tag does not have.
pub uninterp spec fn cell_contents(cell: LazyCell<Option<(usize, usize)>>) -> Option<
    Option<(usize, usize)>,
>;

/// Calls `LazyCell::new`, not proved here: the new cell is empty.
#[verifier::external_body]
pub(crate) fn empty_cell() -> (cell: LazyCell<Option<(usize, usize)>>)
    ensures
        cell_contents(cell) is None,
{
    LazyCell::new()
}

/// Calls `LazyCell::borrow`, not proved here: a copy of what the cell
/// holds, `None` for an empty cell.
#[verifier::external_body]
pub(crate) fn cell_get(cell: &LazyCell<Option<(usize, usize)>>) -> (held: Option<
    Option<(usize, usize)>,
>)
    ensures
        held == cell_contents(*cell),
{
    cell.borrow().copied()
}

/// Calls `LazyCell::fill`, not proved here: an empty cell takes the value
/// and the call succeeds; a full cell keeps what it holds and the call
/// fails.
#[verifier::external_body]
pub(crate) fn cell_fill(cell: &mut LazyCell<Option<(usize, usize)>>, value: Option<(usize, usize)>)
    -> (filled: bool)
    ensures
        filled == (cell_contents(*old(cell)) is None),
        cell_contents(*final(cell)) == if filled {
            Some(value)
        } else {
            cell_contents(*old(cell))
        },
{
    cell.fill(value).is_ok()
}

} // verus!
