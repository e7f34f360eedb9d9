//! Selection policy shared by ordered workspace rows and sibling surface tabs.
use vstd::prelude::*;

verus! {

/// The index that stays selected after the item at `removed` leaves a collection
/// that now holds `remaining` items: the selected item itself, or the item that
/// slid into its slot, clamped to the last remaining item.
pub open spec fn spec_after_removal(selected: int, removed: int, remaining: int) -> Option<int> {
    if remaining == 0 {
        None
    } else {
        let shifted = if removed < selected { selected - 1 } else { selected };
        Some(if shifted < remaining - 1 { shifted } else { remaining - 1 })
    }
}

/// Preserve the selected item after removal, or choose the item replacing its slot.
/// Falls back to the last remaining item; an empty collection has no selection.
/// Callers provide indices from the collection before removal and its remaining length.
pub fn after_removal(selected: usize, removed: usize, remaining: usize) -> (r: Option<usize>)
    ensures
        r matches Some(i) ==> spec_after_removal(selected as int, removed as int, remaining as int) == Some(i as int),
        r is None <==> spec_after_removal(selected as int, removed as int, remaining as int) is None,
        r matches Some(i) ==> i < remaining,
{
    let last = match remaining.checked_sub(1) {
        Some(last) => last,
        None => return None,
    };
    let shifted = if removed < selected { selected - 1 } else { selected };
    Some(if shifted < last { shifted } else { last })
}

/// Removing another item keeps the selected item selected: after the item at `removed` leaves,
/// the index chosen holds the very item that was selected before.
pub proof fn law_selected_item_stays_selected<A>(items: Seq<A>, selected: int, removed: int)
    requires
        0 <= selected < items.len(),
        0 <= removed < items.len(),
        selected != removed,
    ensures
        spec_after_removal(selected, removed, items.len() - 1) matches Some(j) && 0 <= j < items.len() - 1
            && items.remove(removed)[j] == items[selected],
{
}

/// Removing the selected item selects the item that slid into its slot, or the new last item
/// when it was the last; an emptied collection has no selection.
pub proof fn law_removed_selection_moves_to_neighbour<A>(items: Seq<A>, selected: int)
    requires
        0 <= selected < items.len(),
    ensures
        items.len() == 1 ==> spec_after_removal(selected, selected, 0) is None,
        items.len() > 1 ==> (spec_after_removal(selected, selected, items.len() - 1) matches Some(j)
            && 0 <= j < items.len() - 1 && items.remove(selected)[j] == (if selected + 1 < items.len() {
            items[selected + 1]
        } else {
            items[selected - 1]
        })),
{
}

} // verus!
