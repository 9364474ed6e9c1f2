//! The command-line operations on the replica that are pure state changes:
//! argument handling and printing stay with the binary.

use crate::model::item::Item;
use crate::model::{
    has_item, inbox_items_spec, items_of, lemma_has_item_iff_contains, lemma_inbox_spec_subset,
    marked_complete, sort_items_spec, Model,
};
use vstd::prelude::*;

verus! {

/// A condition a command reports to the caller without touching the
/// replica.
#[derive(Clone, Copy, Debug, PartialEq, Eq, Structural)]
pub enum CliError {
    /// The given listing number names no item of the inbox listing.
    InvalidItemNumber { number: usize, num_items: usize },
}

/// Completes the inbox item that the listing shows under `number` (numbered
/// from one, in the listing's display order) and hands its text back.
/// Where `number` is outside the listing, the replica is left untouched and
/// the condition says how many items the listing has.
pub fn complete_item(number: usize, model: &mut Model) -> (r: Result<String, CliError>)
    ensures
        ({
            let listing = sort_items_spec(
                inbox_items_spec(old(model).items@, old(model).user.inbox_project_id@, true),
            );
            &&& (r is Err <==> !(1 <= number <= listing.len()))
            &&& (r matches Err(e) ==> e == (CliError::InvalidItemNumber {
                number,
                num_items: listing.len() as usize,
            }) && *final(model) == *old(model))
            &&& (r matches Ok(content) ==> {
                let it = listing[number - 1];
                &&& content@ == it.content@
                &&& marked_complete(*old(model), *final(model), it.id@)
            })
        }),
{
    let inbox_items = model.get_inbox_items(true);
    let num_items = inbox_items.len();
    let ghost inbox = inbox_items_spec(model.items@, model.user.inbox_project_id@, true);
    let ghost listing = sort_items_spec(inbox);
    proof {
        assert(items_of(inbox_items@) == listing);
        assert(items_of(inbox_items@).len() == inbox_items@.len());
        assert(num_items == listing.len());
    }
    if number == 0 || number > num_items {
        return Err(CliError::InvalidItemNumber { number, num_items });
    }

    let item = inbox_items[number - 1];
    let content = item.content.clone();
    let item_id = item.id.clone();
    let ghost the_item = *inbox_items@[number as int - 1];
    proof {
        assert(items_of(inbox_items@)[number as int - 1] == the_item);
        assert(listing[number as int - 1] == the_item);
        items_of(inbox_items@).to_multiset_ensures();
        inbox.to_multiset_ensures();
        assert(items_of(inbox_items@).contains(the_item));
        assert(items_of(inbox_items@).to_multiset().count(the_item) > 0);
        assert(inbox.contains(the_item));
        lemma_inbox_spec_subset(model.items@, model.user.inbox_project_id@, true);
        assert(model.items@.contains(the_item));
        let p = choose|p: int| 0 <= p < model.items@.len() && model.items@[p] == the_item;
        assert((model.items@[p].id)@ == the_item.id@);
        lemma_has_item_iff_contains(model.items@, the_item.id@);
        assert(has_item(model.items@, the_item.id@));
    }

    model.mark_item(&item_id, true);

    Ok(content)
}

} // verus!
