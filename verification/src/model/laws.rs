//! The general laws of the reconciler and of the command queue, stated over
//! the same specification functions that the executable contracts use, and
//! proved once and for all.

use crate::model::command::Command;
use crate::model::item::Item;
use crate::model::project::Project;
use crate::model::section::Section;
use crate::model::{
    acked_ok, apply_all, apply_one, commands_kept, complete_command_for, complete_command_index,
    contains_id, has_complete_command, item_index, lemma_complete_command_index,
    lemma_has_item_iff_contains, lemma_item_index, merged_items, remap_all, remap_one,
    remove_first_complete_command, replace_if_nonempty,
};
use crate::sync::Status;
use vstd::prelude::*;

verus! {

/// Every item of the replica carries a distinct identifier.
pub open spec fn unique_item_ids(items: Seq<Item>) -> bool {
    forall|i: int, j: int|
        0 <= i < j < items.len() ==> (#[trigger] items[i].id)@ != (#[trigger] items[j].id)@
}

/// The shape of a response from a server that assigns fresh identifiers:
/// the identifier mapping has distinct keys and distinct, fresh values, no
/// value doubling as a key, and the incoming items carry distinct
/// identifiers that never equal a mapping key (a remapped task comes back
/// under its permanent identifier, not the local one).
pub open spec fn response_applicable(
    items: Seq<Item>,
    incoming: Seq<Item>,
    mapping: Seq<(String, String)>,
) -> bool {
    &&& forall|i: int, j: int|
        0 <= i < j < mapping.len() ==> (#[trigger] mapping[i].0)@ != (#[trigger] mapping[j].0)@
    &&& forall|i: int, j: int|
        0 <= i < j < mapping.len() ==> (#[trigger] mapping[i].1)@ != (#[trigger] mapping[j].1)@
    &&& forall|i: int, j: int|
        0 <= i < mapping.len() && 0 <= j < mapping.len() ==> (#[trigger] mapping[i].1)@ != (
        #[trigger] mapping[j].0)@
    &&& forall|i: int|
        0 <= i < mapping.len() ==> !contains_id(items, (#[trigger] mapping[i].1)@)
    &&& forall|i: int, j: int|
        0 <= i < j < incoming.len() ==> (#[trigger] incoming[i].id)@ != (#[trigger] incoming[j].id)@
    &&& forall|i: int, j: int|
        0 <= i < incoming.len() && 0 <= j < mapping.len() ==> (#[trigger] incoming[i].id)@ != (
        #[trigger] mapping[j].0)@
}

/// What one remap step leaves behind: identifiers stay unique, the key is
/// gone, and no identifier appears that was not already there, other than
/// the fresh one.
proof fn lemma_remap_one_post(items: Seq<Item>, temp: Seq<char>, real_id: String)
    requires
        unique_item_ids(items),
        !contains_id(items, real_id@),
        temp != real_id@,
    ensures
        ({
            let res = remap_one(items, temp, real_id);
            &&& unique_item_ids(res)
            &&& !contains_id(res, temp)
            &&& forall|id: Seq<char>|
                #[trigger] contains_id(res, id) ==> contains_id(items, id) || id == real_id@
            &&& forall|id: Seq<char>|
                id != temp && id != real_id@ ==> (#[trigger] contains_id(res, id) <==> contains_id(
                    items,
                    id,
                ))
        }),
{
    lemma_item_index(items, temp);
    let j = item_index(items, temp);
    let res = remap_one(items, temp, real_id);
    if j != -1 {
        assert(items[j].id@ == temp);
        assert(res.len() == items.len());
        assert(forall|k: int| 0 <= k < res.len() && k != j ==> res[k] == items[k]);
        assert(res[j].id@ == real_id@);
        assert forall|i: int, k: int|
            0 <= i < k < res.len() implies (#[trigger] res[i].id)@ != (#[trigger] res[k].id)@ by {
            if i == j {
                assert(res[k] == items[k]);
                assert(contains_id(items, items[k].id@));
            } else if k == j {
                assert(res[i] == items[i]);
                assert(contains_id(items, items[i].id@));
            }
        }
        assert forall|id: Seq<char>| #[trigger] contains_id(res, id) implies contains_id(items, id)
            || id == real_id@ by {
            let k = choose|k: int| 0 <= k < res.len() && (#[trigger] res[k].id)@ == id;
            if k != j {
                assert(items[k].id@ == id);
            }
        }
        assert(!contains_id(res, temp)) by {
            if contains_id(res, temp) {
                let k = choose|k: int| 0 <= k < res.len() && (#[trigger] res[k].id)@ == temp;
                assert(k != j);
                assert(items[k].id@ == temp);
                assert(items[j].id@ == temp);
            }
        }
        assert forall|id: Seq<char>| id != temp && id != real_id@ implies (#[trigger] contains_id(
            res,
            id,
        ) <==> contains_id(items, id)) by {
            if contains_id(items, id) {
                let k = choose|k: int| 0 <= k < items.len() && (#[trigger] items[k].id)@ == id;
                assert(k != j);
                assert(res[k].id@ == id);
            }
            if contains_id(res, id) {
                let k = choose|k: int| 0 <= k < res.len() && (#[trigger] res[k].id)@ == id;
                assert(k != j);
                assert(items[k].id@ == id);
            }
        }
    } else {
        lemma_has_item_iff_contains(items, temp);
    }
}

/// Whether the mapping pairs can be applied to `items` as a server-made
/// identifier assignment: distinct keys, distinct fresh values, no value
/// doubling as a key.
pub open spec fn mapping_applicable(items: Seq<Item>, mapping: Seq<(String, String)>) -> bool {
    &&& forall|i: int, j: int|
        0 <= i < j < mapping.len() ==> (#[trigger] mapping[i].0)@ != (#[trigger] mapping[j].0)@
    &&& forall|i: int, j: int|
        0 <= i < j < mapping.len() ==> (#[trigger] mapping[i].1)@ != (#[trigger] mapping[j].1)@
    &&& forall|i: int, j: int|
        0 <= i < mapping.len() && 0 <= j < mapping.len() ==> (#[trigger] mapping[i].1)@ != (
        #[trigger] mapping[j].0)@
    &&& forall|i: int|
        0 <= i < mapping.len() ==> !contains_id(items, (#[trigger] mapping[i].1)@)
}

/// What the whole remap pass leaves behind: identifiers stay unique, every
/// mapping key is gone, and every identifier either survived or is one of
/// the fresh values.
proof fn lemma_remap_all_post(items: Seq<Item>, mapping: Seq<(String, String)>)
    requires
        unique_item_ids(items),
        mapping_applicable(items, mapping),
    ensures
        ({
            let res = remap_all(items, mapping);
            &&& unique_item_ids(res)
            &&& forall|i: int|
                0 <= i < mapping.len() ==> !contains_id(res, (#[trigger] mapping[i].0)@)
            &&& forall|id: Seq<char>|
                #[trigger] contains_id(res, id) ==> contains_id(items, id) || exists|k: int|
                    0 <= k < mapping.len() && (#[trigger] mapping[k].1)@ == id
        }),
    decreases mapping.len(),
{
    if mapping.len() > 0 {
        let prefix = mapping.drop_last();
        assert(forall|i: int| 0 <= i < prefix.len() ==> prefix[i] == mapping[i]);
        lemma_remap_all_post(items, prefix);
        let sub = remap_all(items, prefix);
        let last = mapping.last();
        assert(!contains_id(sub, last.1@)) by {
            if contains_id(sub, last.1@) {
                assert(!contains_id(items, last.1@));
            }
        }
        assert(last.0@ != last.1@);
        lemma_remap_one_post(sub, last.0@, last.1);
        let res = remap_all(items, mapping);
        assert(res == remap_one(sub, last.0@, last.1));
        assert forall|i: int| 0 <= i < mapping.len() implies !contains_id(
            res,
            (#[trigger] mapping[i].0)@,
        ) by {
            if i < mapping.len() - 1 {
                assert(!contains_id(sub, mapping[i].0@));
                assert(mapping[i].0@ != last.0@);
                assert(mapping[i].0@ != last.1@);
            }
        }
        assert forall|id: Seq<char>| #[trigger] contains_id(res, id) implies contains_id(items, id)
            || exists|k: int| 0 <= k < mapping.len() && (#[trigger] mapping[k].1)@ == id by {
            if id != last.1@ {
                if id == last.0@ {
                    assert(!contains_id(res, id));
                } else {
                    assert(contains_id(sub, id));
                }
            } else {
                assert((#[trigger] mapping[mapping.len() - 1].1)@ == id);
            }
        }
    }
}

/// A remap whose keys name no item of the replica changes nothing.
proof fn lemma_remap_all_identity(items: Seq<Item>, mapping: Seq<(String, String)>)
    requires
        forall|i: int| 0 <= i < mapping.len() ==> !contains_id(items, (#[trigger] mapping[i].0)@),
    ensures
        remap_all(items, mapping) == items,
    decreases mapping.len(),
{
    if mapping.len() > 0 {
        let prefix = mapping.drop_last();
        assert(forall|i: int| 0 <= i < prefix.len() ==> prefix[i] == mapping[i]);
        lemma_remap_all_identity(items, prefix);
        let last = mapping.last();
        lemma_has_item_iff_contains(items, last.0@);
        assert(item_index(items, last.0@) == -1);
    }
}

/// What one upsert step leaves behind: identifiers stay unique; a done
/// incoming item's identifier is gone and an open one is present verbatim;
/// items under every other identifier stand untouched.
proof fn lemma_apply_one_post(items: Seq<Item>, inc: Item)
    requires
        unique_item_ids(items),
    ensures
        ({
            let res = apply_one(items, inc);
            &&& unique_item_ids(res)
            &&& (inc.checked ==> !contains_id(res, inc.id@))
            &&& (!inc.checked ==> res.contains(inc))
            &&& forall|id: Seq<char>|
                id != inc.id@ ==> (#[trigger] contains_id(res, id) <==> contains_id(items, id))
            &&& forall|x: Item|
                x.id@ != inc.id@ ==> (#[trigger] res.contains(x) <==> items.contains(x))
            &&& forall|id: Seq<char>|
                #[trigger] contains_id(res, id) ==> contains_id(items, id) || id == inc.id@
        }),
{
    lemma_item_index(items, inc.id@);
    let j = item_index(items, inc.id@);
    let res = apply_one(items, inc);
    if j == -1 {
        assert(forall|k: int| 0 <= k < items.len() ==> (#[trigger] items[k].id)@ != inc.id@);
        if inc.checked {
            assert(res == items);
            assert(!contains_id(res, inc.id@));
        } else {
            assert(res == items.push(inc));
            assert(res[items.len() as int] == inc);
            assert(res.contains(inc));
            assert(forall|k: int| 0 <= k < items.len() ==> #[trigger] res[k] == items[k]);
            assert forall|i: int, k: int|
                0 <= i < k < res.len() implies (#[trigger] res[i].id)@ != (
            #[trigger] res[k].id)@ by {
                if k == items.len() {
                    assert(res[i] == items[i]);
                } else {
                    assert(res[i] == items[i] && res[k] == items[k]);
                }
            }
            assert forall|id: Seq<char>|
                id != inc.id@ implies (#[trigger] contains_id(res, id) <==> contains_id(
                    items,
                    id,
                )) by {
                if contains_id(items, id) {
                    let k = choose|k: int| 0 <= k < items.len() && (#[trigger] items[k].id)@ == id;
                    assert(res[k].id@ == id);
                }
                if contains_id(res, id) {
                    let k = choose|k: int| 0 <= k < res.len() && (#[trigger] res[k].id)@ == id;
                    assert(k < items.len());
                    assert(items[k].id@ == id);
                }
            }
            assert forall|x: Item|
                x.id@ != inc.id@ implies (#[trigger] res.contains(x) <==> items.contains(x)) by {
                if items.contains(x) {
                    let k = choose|k: int| 0 <= k < items.len() && items[k] == x;
                    assert(res[k] == x);
                }
                if res.contains(x) {
                    let k = choose|k: int| 0 <= k < res.len() && res[k] == x;
                    assert(k < items.len());
                    assert(items[k] == x);
                }
            }
            assert forall|id: Seq<char>| #[trigger] contains_id(res, id) implies contains_id(
                items,
                id,
            ) || id == inc.id@ by {
                if id != inc.id@ {
                    assert(contains_id(items, id));
                }
            }
        }
    } else {
        assert(0 <= j < items.len());
        assert(items[j].id@ == inc.id@);
        if inc.checked {
            assert(res == items.remove(j));
            assert(res.len() == items.len() - 1);
            assert(forall|k: int| 0 <= k < j ==> #[trigger] res[k] == items[k]);
            assert(forall|k: int| j <= k < res.len() ==> #[trigger] res[k] == items[k + 1]);
            assert forall|k: int| 0 <= k < res.len() implies (#[trigger] res[k].id)@ != inc.id@ by {
                if k < j {
                    assert(res[k] == items[k]);
                    assert(items[k].id@ != items[j].id@);
                } else {
                    assert(res[k] == items[k + 1]);
                    assert(items[k + 1].id@ != items[j].id@);
                }
            }
            assert(!contains_id(res, inc.id@));
            assert forall|i: int, k: int|
                0 <= i < k < res.len() implies (#[trigger] res[i].id)@ != (
            #[trigger] res[k].id)@ by {
                let i2: int = if i < j {
                    i
                } else {
                    i + 1
                };
                let k2: int = if k < j {
                    k
                } else {
                    k + 1
                };
                assert(res[i] == items[i2] && res[k] == items[k2]);
            }
            assert forall|id: Seq<char>|
                id != inc.id@ implies (#[trigger] contains_id(res, id) <==> contains_id(
                    items,
                    id,
                )) by {
                if contains_id(items, id) {
                    let k = choose|k: int| 0 <= k < items.len() && (#[trigger] items[k].id)@ == id;
                    assert(k != j);
                    if k < j {
                        assert(res[k].id@ == id);
                    } else {
                        assert(res[k - 1].id@ == id);
                    }
                }
                if contains_id(res, id) {
                    let k = choose|k: int| 0 <= k < res.len() && (#[trigger] res[k].id)@ == id;
                    if k < j {
                        assert(items[k].id@ == id);
                    } else {
                        assert(items[k + 1].id@ == id);
                    }
                }
            }
            assert forall|x: Item|
                x.id@ != inc.id@ implies (#[trigger] res.contains(x) <==> items.contains(x)) by {
                if items.contains(x) {
                    let k = choose|k: int| 0 <= k < items.len() && items[k] == x;
                    assert(k != j);
                    if k < j {
                        assert(res[k] == x);
                    } else {
                        assert(res[k - 1] == x);
                    }
                }
                if res.contains(x) {
                    let k = choose|k: int| 0 <= k < res.len() && res[k] == x;
                    if k < j {
                        assert(items[k] == x);
                    } else {
                        assert(items[k + 1] == x);
                    }
                }
            }
            assert forall|id: Seq<char>| #[trigger] contains_id(res, id) implies contains_id(
                items,
                id,
            ) || id == inc.id@ by {
                if id != inc.id@ {
                    assert(contains_id(items, id));
                }
            }
        } else {
            assert(res == items.update(j, inc));
            assert(res.len() == items.len());
            assert(res[j] == inc);
            assert(res.contains(inc));
            assert(forall|k: int| 0 <= k < res.len() && k != j ==> #[trigger] res[k] == items[k]);
            assert forall|i: int, k: int|
                0 <= i < k < res.len() implies (#[trigger] res[i].id)@ != (
            #[trigger] res[k].id)@ by {
                if i == j {
                    assert(res[k] == items[k]);
                    assert(items[j].id@ != items[k].id@);
                } else if k == j {
                    assert(res[i] == items[i]);
                    assert(items[i].id@ != items[j].id@);
                } else {
                    assert(res[i] == items[i] && res[k] == items[k]);
                }
            }
            assert forall|id: Seq<char>|
                id != inc.id@ implies (#[trigger] contains_id(res, id) <==> contains_id(
                    items,
                    id,
                )) by {
                if contains_id(items, id) {
                    let k = choose|k: int| 0 <= k < items.len() && (#[trigger] items[k].id)@ == id;
                    assert(k != j);
                    assert(res[k].id@ == id);
                }
                if contains_id(res, id) {
                    let k = choose|k: int| 0 <= k < res.len() && (#[trigger] res[k].id)@ == id;
                    assert(k != j);
                    assert(items[k].id@ == id);
                }
            }
            assert forall|x: Item|
                x.id@ != inc.id@ implies (#[trigger] res.contains(x) <==> items.contains(x)) by {
                if items.contains(x) {
                    let k = choose|k: int| 0 <= k < items.len() && items[k] == x;
                    assert(k != j);
                    assert(res[k] == x);
                }
                if res.contains(x) {
                    let k = choose|k: int| 0 <= k < res.len() && res[k] == x;
                    assert(k != j);
                    assert(items[k] == x);
                }
            }
            assert forall|id: Seq<char>| #[trigger] contains_id(res, id) implies contains_id(
                items,
                id,
            ) || id == inc.id@ by {
                if id != inc.id@ {
                    assert(contains_id(items, id));
                }
            }
        }
    }
}

/// What the whole upsert pass leaves behind: identifiers stay unique, every
/// done incoming item's identifier is gone, every open incoming item is
/// present verbatim, and no identifier appears that neither survived nor
/// came in.
proof fn lemma_apply_all_post(items: Seq<Item>, incoming: Seq<Item>)
    requires
        unique_item_ids(items),
        unique_item_ids(incoming),
    ensures
        ({
            let res = apply_all(items, incoming);
            &&& unique_item_ids(res)
            &&& forall|k: int|
                0 <= k < incoming.len() && (#[trigger] incoming[k]).checked ==> !contains_id(
                    res,
                    incoming[k].id@,
                )
            &&& forall|k: int|
                0 <= k < incoming.len() && !(#[trigger] incoming[k]).checked ==> res.contains(
                    incoming[k],
                )
            &&& forall|id: Seq<char>|
                #[trigger] contains_id(res, id) ==> contains_id(items, id) || exists|k: int|
                    0 <= k < incoming.len() && (#[trigger] incoming[k].id)@ == id
        }),
    decreases incoming.len(),
{
    if incoming.len() > 0 {
        let prefix = incoming.drop_last();
        assert(forall|i: int| 0 <= i < prefix.len() ==> #[trigger] prefix[i] == incoming[i]);
        lemma_apply_all_post(items, prefix);
        let sub = apply_all(items, prefix);
        let last = incoming.last();
        lemma_apply_one_post(sub, last);
        let res = apply_all(items, incoming);
        assert(res == apply_one(sub, last));
        assert forall|k: int|
            0 <= k < incoming.len() && (#[trigger] incoming[k]).checked implies !contains_id(
            res,
            incoming[k].id@,
        ) by {
            if k < incoming.len() - 1 {
                assert(prefix[k] == incoming[k]);
                assert((#[trigger] prefix[k]).checked);
                assert(!contains_id(sub, prefix[k].id@));
                assert(incoming[k].id@ != last.id@);
            }
        }
        assert forall|k: int|
            0 <= k < incoming.len() && !(#[trigger] incoming[k]).checked implies res.contains(
            incoming[k],
        ) by {
            if k < incoming.len() - 1 {
                assert(prefix[k] == incoming[k]);
                assert(!(#[trigger] prefix[k]).checked);
                assert(sub.contains(prefix[k]));
                assert(incoming[k].id@ != last.id@);
            }
        }
        assert forall|id: Seq<char>| #[trigger] contains_id(res, id) implies contains_id(items, id)
            || exists|k: int| 0 <= k < incoming.len() && (#[trigger] incoming[k].id)@ == id by {
            if id == last.id@ {
                assert((#[trigger] incoming[incoming.len() - 1].id)@ == id);
            } else {
                assert(contains_id(sub, id));
                if !contains_id(items, id) {
                    let k = choose|k: int|
                        0 <= k < prefix.len() && (#[trigger] prefix[k].id)@ == id;
                    assert((#[trigger] incoming[k].id)@ == id);
                }
            }
        }
    }
}

/// An upsert pass whose done items name no item of the replica and whose
/// open items are each already present verbatim changes nothing.
proof fn lemma_apply_all_identity(items: Seq<Item>, incoming: Seq<Item>)
    requires
        unique_item_ids(items),
        forall|k: int|
            0 <= k < incoming.len() && (#[trigger] incoming[k]).checked ==> !contains_id(
                items,
                incoming[k].id@,
            ),
        forall|k: int|
            0 <= k < incoming.len() && !(#[trigger] incoming[k]).checked ==> items.contains(
                incoming[k],
            ),
    ensures
        apply_all(items, incoming) == items,
    decreases incoming.len(),
{
    if incoming.len() > 0 {
        let prefix = incoming.drop_last();
        assert(forall|i: int| 0 <= i < prefix.len() ==> #[trigger] prefix[i] == incoming[i]);
        lemma_apply_all_identity(items, prefix);
        let last = incoming.last();
        assert(last == incoming[incoming.len() - 1]);
        lemma_item_index(items, last.id@);
        let j = item_index(items, last.id@);
        if last.checked {
            assert(!contains_id(items, last.id@));
            lemma_has_item_iff_contains(items, last.id@);
            assert(j == -1);
            assert(apply_one(items, last) == items);
        } else {
            assert(items.contains(last));
            let p = choose|p: int| 0 <= p < items.len() && items[p] == last;
            assert(items[p].id@ == last.id@);
            lemma_has_item_iff_contains(items, last.id@);
            assert(contains_id(items, last.id@));
            assert(j != -1);
            assert(items[j].id@ == last.id@);
            assert(j == p);
            assert(items.update(j, last) =~= items);
            assert(apply_one(items, last) == items);
        }
    }
}

/// Every command that survives an acknowledgement map was not acknowledged
/// with an Ok status.
proof fn lemma_commands_kept_all_unacked(cmds: Seq<Command>, acks: Seq<(String, Status)>)
    ensures
        forall|i: int|
            0 <= i < commands_kept(cmds, acks).len() ==> !acked_ok(
                acks,
                (#[trigger] commands_kept(cmds, acks)[i]).uuid@,
            ),
    decreases cmds.len(),
{
    if cmds.len() > 0 {
        lemma_commands_kept_all_unacked(cmds.drop_last(), acks);
    }
}

/// An acknowledgement map that sends no queued command to Ok leaves the
/// queue unchanged.
proof fn lemma_commands_kept_identity(cmds: Seq<Command>, acks: Seq<(String, Status)>)
    requires
        forall|i: int| 0 <= i < cmds.len() ==> !acked_ok(acks, (#[trigger] cmds[i]).uuid@),
    ensures
        commands_kept(cmds, acks) == cmds,
    decreases cmds.len(),
{
    if cmds.len() > 0 {
        let prefix = cmds.drop_last();
        assert(forall|i: int| 0 <= i < prefix.len() ==> prefix[i] == cmds[i]);
        lemma_commands_kept_identity(prefix, acks);
        assert(commands_kept(cmds, acks) =~= cmds);
    }
}

/// Law: applying an acknowledgement map a second time removes nothing more.
pub proof fn lemma_commands_kept_idempotent(cmds: Seq<Command>, acks: Seq<(String, Status)>)
    ensures
        commands_kept(commands_kept(cmds, acks), acks) == commands_kept(cmds, acks),
{
    lemma_commands_kept_all_unacked(cmds, acks);
    lemma_commands_kept_identity(commands_kept(cmds, acks), acks);
}

/// Law (full-sync replace): merging a full-snapshot response replaces the
/// item collection verbatim, whatever the prior replica held.
pub proof fn lemma_full_sync_replaces(
    items: Seq<Item>,
    incoming: Seq<Item>,
    mapping: Seq<(String, String)>,
)
    ensures
        merged_items(items, true, incoming, mapping) == incoming,
{
}

/// Law (retry on silence): a queued command whose idempotency key is absent
/// from the acknowledgement map is still queued after the merge.
pub proof fn lemma_unacknowledged_command_stays(
    cmds: Seq<Command>,
    acks: Seq<(String, Status)>,
    i: int,
)
    requires
        0 <= i < cmds.len(),
        !acked_ok(acks, cmds[i].uuid@),
    ensures
        commands_kept(cmds, acks).contains(cmds[i]),
    decreases cmds.len(),
{
    if i == cmds.len() - 1 {
        assert(cmds.last() == cmds[i]);
        let res = commands_kept(cmds, acks);
        assert(res == commands_kept(cmds.drop_last(), acks).push(cmds[i]));
        assert(res[res.len() - 1] == cmds[i]);
    } else {
        let prefix = cmds.drop_last();
        assert(prefix[i] == cmds[i]);
        lemma_unacknowledged_command_stays(prefix, acks, i);
        let sub = commands_kept(prefix, acks);
        let k = choose|k: int| 0 <= k < sub.len() && sub[k] == cmds[i];
        if acked_ok(acks, cmds.last().uuid@) {
        } else {
            assert(commands_kept(cmds, acks)[k] == cmds[i]);
        }
    }
}

/// Law: a merge keeps item identifiers unique.  A full snapshot is unique
/// because the server's collection is; a delta keeps uniqueness because the
/// remap only introduces fresh identifiers and the upsert pass matches by
/// identifier.
pub proof fn lemma_merge_preserves_unique_ids(
    items: Seq<Item>,
    full_sync: bool,
    incoming: Seq<Item>,
    mapping: Seq<(String, String)>,
)
    requires
        unique_item_ids(items),
        unique_item_ids(incoming),
        !full_sync ==> response_applicable(items, incoming, mapping),
    ensures
        unique_item_ids(merged_items(items, full_sync, incoming, mapping)),
{
    if !full_sync {
        lemma_remap_all_post(items, mapping);
        lemma_apply_all_post(remap_all(items, mapping), incoming);
    }
}

/// Law (idempotent acknowledgement): merging the same response twice yields
/// the same replica as merging it once.  The cursor and the user record are
/// functions of the response alone; the project and section collections and
/// the command queue remove nothing more on a second pass; and the item
/// collection is already reconciled after the first pass, so the second
/// remap finds no local identifier to rewrite and the second upsert finds
/// every incoming item already settled.  The incremental case asks that the
/// replica's identifiers be unique and that the response have the shape a
/// real server sends (`response_applicable`): a response whose identifier
/// mapping keys also name incoming items, for one, is merged but not
/// idempotently.
pub proof fn lemma_update_idempotent(
    items: Seq<Item>,
    cmds: Seq<Command>,
    projects: Seq<Project>,
    sections: Seq<Section>,
    full_sync: bool,
    incoming: Seq<Item>,
    mapping: Seq<(String, String)>,
    acks: Seq<(String, Status)>,
    resp_projects: Seq<Project>,
    resp_sections: Seq<Section>,
)
    requires
        !full_sync ==> unique_item_ids(items) && response_applicable(items, incoming, mapping),
    ensures
        merged_items(
            merged_items(items, full_sync, incoming, mapping),
            full_sync,
            incoming,
            mapping,
        ) == merged_items(items, full_sync, incoming, mapping),
        commands_kept(commands_kept(cmds, acks), acks) == commands_kept(cmds, acks),
        replace_if_nonempty(replace_if_nonempty(projects, resp_projects), resp_projects)
            == replace_if_nonempty(projects, resp_projects),
        replace_if_nonempty(replace_if_nonempty(sections, resp_sections), resp_sections)
            == replace_if_nonempty(sections, resp_sections),
{
    lemma_commands_kept_idempotent(cmds, acks);
    if !full_sync {
        lemma_remap_all_post(items, mapping);
        let base = remap_all(items, mapping);
        lemma_apply_all_post(base, incoming);
        let once = apply_all(base, incoming);
        assert forall|i: int| 0 <= i < mapping.len() implies !contains_id(
            once,
            (#[trigger] mapping[i].0)@,
        ) by {
            if contains_id(once, mapping[i].0@) {
                if !contains_id(base, mapping[i].0@) {
                    let k = choose|k: int|
                        0 <= k < incoming.len() && (#[trigger] incoming[k].id)@ == mapping[i].0@;
                }
            }
        }
        lemma_remap_all_identity(once, mapping);
        lemma_apply_all_identity(once, incoming);
    }
}

/// How many completion commands for `id` the queue holds.
pub open spec fn completion_count(cmds: Seq<Command>, id: Seq<char>) -> int
    decreases cmds.len(),
{
    if cmds.len() == 0 {
        0
    } else {
        completion_count(cmds.drop_last(), id) + if complete_command_for(cmds.last(), id) {
            1int
        } else {
            0int
        }
    }
}

/// A queue without a completion command for `id` counts none.
proof fn lemma_no_completion_means_zero(cmds: Seq<Command>, id: Seq<char>)
    requires
        !has_complete_command(cmds, id),
    ensures
        completion_count(cmds, id) == 0,
    decreases cmds.len(),
{
    lemma_complete_command_index(cmds, id);
    if cmds.len() > 0 {
        let prefix = cmds.drop_last();
        assert(forall|k: int| 0 <= k < prefix.len() ==> #[trigger] prefix[k] == cmds[k]);
        lemma_complete_command_index(prefix, id);
        assert(!has_complete_command(prefix, id));
        lemma_no_completion_means_zero(prefix, id);
        assert(!complete_command_for(cmds[cmds.len() - 1], id));
    }
}

/// Removing one command drops the count by what that command contributed.
proof fn lemma_completion_count_remove(cmds: Seq<Command>, k: int, id: Seq<char>)
    requires
        0 <= k < cmds.len(),
    ensures
        completion_count(cmds.remove(k), id) == completion_count(cmds, id) - (
        if complete_command_for(cmds[k], id) {
            1int
        } else {
            0int
        }),
    decreases cmds.len(),
{
    if k == cmds.len() - 1 {
        assert(cmds.remove(k) =~= cmds.drop_last());
        assert(cmds.last() == cmds[k]);
    } else {
        let prefix = cmds.drop_last();
        assert(forall|i: int| 0 <= i < prefix.len() ==> #[trigger] prefix[i] == cmds[i]);
        lemma_completion_count_remove(prefix, k, id);
        assert(cmds.remove(k) =~= prefix.remove(k).push(cmds.last()));
        assert(cmds.remove(k).drop_last() =~= prefix.remove(k));
        assert(cmds.remove(k).last() == cmds.last());
    }
}

/// Acknowledgements only ever shrink the count.
proof fn lemma_commands_kept_completion_count(
    cmds: Seq<Command>,
    acks: Seq<(String, Status)>,
    id: Seq<char>,
)
    ensures
        completion_count(commands_kept(cmds, acks), id) <= completion_count(cmds, id),
    decreases cmds.len(),
{
    if cmds.len() > 0 {
        let prefix = cmds.drop_last();
        lemma_commands_kept_completion_count(prefix, acks, id);
        if !acked_ok(acks, cmds.last().uuid@) {
            let kept = commands_kept(cmds, acks);
            assert(kept == commands_kept(prefix, acks).push(cmds.last()));
            assert(kept.drop_last() =~= commands_kept(prefix, acks));
            assert(kept.last() == cmds.last());
        }
    }
}

/// Law (single completion command): a task has at most one completion
/// command queued at a time.  The queue gains a completion command only for
/// a task that has none queued (as `mark_item` promises), taking one back
/// removes one, and an acknowledgement map only ever shrinks the queue: each
/// operation keeps the count at one or none.
pub proof fn lemma_at_most_one_completion_queued(
    cmds: Seq<Command>,
    c: Command,
    id: Seq<char>,
    acks: Seq<(String, Status)>,
)
    requires
        completion_count(cmds, id) <= 1,
    ensures
        !has_complete_command(cmds, id) && complete_command_for(c, id) ==> completion_count(
            cmds.push(c),
            id,
        ) <= 1,
        completion_count(remove_first_complete_command(cmds, id), id) <= 1,
        completion_count(commands_kept(cmds, acks), id) <= 1,
{
    if !has_complete_command(cmds, id) && complete_command_for(c, id) {
        lemma_no_completion_means_zero(cmds, id);
        assert(cmds.push(c).drop_last() =~= cmds);
        assert(cmds.push(c).last() == c);
    }
    lemma_complete_command_index(cmds, id);
    let j = complete_command_index(cmds, id);
    if j != -1 {
        lemma_completion_count_remove(cmds, j, id);
    }
    lemma_commands_kept_completion_count(cmds, acks, id);
}

/// Law (cancel before send): completing a task queues one completion
/// command, and taking the completion back removes exactly that command,
/// leaving the queue as it stood before either call — provided no
/// completion command for the task was queued beforehand.
pub proof fn lemma_cancel_restores_queue(cmds: Seq<Command>, c: Command, id: Seq<char>)
    requires
        !has_complete_command(cmds, id),
        complete_command_for(c, id),
    ensures
        remove_first_complete_command(cmds.push(c), id) == cmds,
{
    lemma_complete_command_index(cmds, id);
    lemma_complete_command_index(cmds.push(c), id);
    assert(forall|k: int| 0 <= k < cmds.len() ==> #[trigger] cmds.push(c)[k] == cmds[k]);
    let j = complete_command_index(cmds.push(c), id);
    assert(complete_command_for(cmds.push(c)[cmds.len() as int], id));
    assert(j != -1);
    assert(j == cmds.len()) by {
        if j < cmds.len() {
            assert(complete_command_for(cmds[j], id));
        }
    }
    assert(cmds.push(c).remove(j) =~= cmds);
}

} // verus!
