use crate::sync::{Response, Status};
use vstd::prelude::*;

pub mod command;
pub mod due_date;
pub mod item;
pub mod laws;
pub mod project;
pub mod section;
pub mod user;

use command::{AddItemArgs, Args, Command, CompleteItemArgs};
use due_date::Due;
use item::Item;
use project::Project;
use section::Section;
use user::User;

verus! {

/// Relies on uuid::Uuid::new_v4: a freshly generated random identifier.
/// Nothing is assumed of the returned text.
#[verifier::external_body]
pub(crate) fn fresh_uuid_string() -> String {
    uuid::Uuid::new_v4().to_string()
}

/// The position of the first item of `items` whose identifier reads `id`,
/// or `-1` where there is none.
pub open spec fn item_index(items: Seq<Item>, id: Seq<char>) -> int
    decreases items.len(),
{
    if items.len() == 0 {
        -1
    } else if items[0].id@ == id {
        0
    } else {
        let rest = item_index(items.drop_first(), id);
        if rest == -1 {
            -1
        } else {
            rest + 1
        }
    }
}

/// Whether some item of `items` has the identifier `id`.
pub open spec fn has_item(items: Seq<Item>, id: Seq<char>) -> bool {
    item_index(items, id) != -1
}

/// What `item_index` returns: `-1` exactly where no item carries `id`, and
/// otherwise the position of the first that does.
pub proof fn lemma_item_index(items: Seq<Item>, id: Seq<char>)
    ensures
        item_index(items, id) == -1 <==> (forall|k: int|
            0 <= k < items.len() ==> (#[trigger] items[k].id)@ != id),
        item_index(items, id) != -1 ==> {
            let j = item_index(items, id);
            &&& 0 <= j < items.len()
            &&& items[j].id@ == id
            &&& forall|k: int| 0 <= k < j ==> (#[trigger] items[k].id)@ != id
        },
    decreases items.len(),
{
    if items.len() > 0 && items[0].id@ != id {
        lemma_item_index(items.drop_first(), id);
        assert(forall|k: int|
            0 <= k < items.drop_first().len() ==> #[trigger] items.drop_first()[k] == items[k + 1]);
        let rest = item_index(items.drop_first(), id);
        if rest == -1 {
            assert forall|k: int| 0 <= k < items.len() implies (#[trigger] items[k].id)@ != id by {
                if k > 0 {
                    assert(items.drop_first()[k - 1] == items[k]);
                }
            }
        } else {
            assert(items.drop_first()[rest] == items[rest + 1]);
            assert forall|k: int| 0 <= k < rest + 1 implies (#[trigger] items[k].id)@ != id by {
                if k > 0 {
                    assert(items.drop_first()[k - 1] == items[k]);
                }
            }
        }
    }
}

/// Whether some item of `items` has the identifier `id`, said without
/// reference to a position.
pub open spec fn contains_id(items: Seq<Item>, id: Seq<char>) -> bool {
    exists|k: int| 0 <= k < items.len() && (#[trigger] items[k].id)@ == id
}

/// `has_item` and `contains_id` agree.
pub proof fn lemma_has_item_iff_contains(items: Seq<Item>, id: Seq<char>)
    ensures
        has_item(items, id) <==> contains_id(items, id),
{
    lemma_item_index(items, id);
}

/// A collection of `incoming` entities replaces the `prior` collection only
/// where it is non-empty; an empty one cannot be told apart from one that
/// was never requested, and leaves the prior collection standing.
pub open spec fn replace_if_nonempty<T>(prior: Seq<T>, incoming: Seq<T>) -> Seq<T> {
    if incoming.len() > 0 {
        incoming
    } else {
        prior
    }
}

/// One step of the identifier remap: where an item's identifier equals the
/// locally generated key `temp`, it is rewritten in place to the
/// server-assigned `real`.
pub open spec fn remap_one(items: Seq<Item>, temp: Seq<char>, real_id: String) -> Seq<Item> {
    let j = item_index(items, temp);
    if j == -1 {
        items
    } else {
        items.update(j, Item { id: item::Id(real_id), ..items[j] })
    }
}

/// The identifier remap, applied for the mapping pairs in order.
pub open spec fn remap_all(items: Seq<Item>, mapping: Seq<(String, String)>) -> Seq<Item>
    decreases mapping.len(),
{
    if mapping.len() == 0 {
        items
    } else {
        remap_one(remap_all(items, mapping.drop_last()), mapping.last().0@, mapping.last().1)
    }
}

/// One step of the incremental upsert/tombstone pass.  An incoming done item
/// is a deletion signal: a local match is dropped, and without one the item
/// is ignored.  An incoming open item replaces its local match wholesale, or
/// is inserted where it has none.
pub open spec fn apply_one(items: Seq<Item>, incoming: Item) -> Seq<Item> {
    let j = item_index(items, incoming.id@);
    if j == -1 {
        if incoming.checked {
            items
        } else {
            items.push(incoming)
        }
    } else {
        if incoming.checked {
            items.remove(j)
        } else {
            items.update(j, incoming)
        }
    }
}

/// The upsert/tombstone pass, applied for the incoming items in order.
pub open spec fn apply_all(items: Seq<Item>, incoming: Seq<Item>) -> Seq<Item>
    decreases incoming.len(),
{
    if incoming.len() == 0 {
        items
    } else {
        apply_one(apply_all(items, incoming.drop_last()), incoming.last())
    }
}

/// What the item collection reads after a response is merged: a full
/// snapshot replaces it verbatim; a delta first rewrites identifiers and
/// then upserts.  The remap must run first: swapping the passes would let a
/// remap miss an item that the same response upserts under its old
/// identifier.
pub open spec fn merged_items(
    items: Seq<Item>,
    full_sync: bool,
    incoming: Seq<Item>,
    mapping: Seq<(String, String)>,
) -> Seq<Item> {
    if full_sync {
        incoming
    } else {
        apply_all(remap_all(items, mapping), incoming)
    }
}

/// Strict lexicographic order on identifier texts, by character value, the
/// shorter text first where one is a prefix of the other.
pub open spec fn text_lt(a: Seq<char>, b: Seq<char>) -> bool
    decreases a.len(),
{
    if b.len() == 0 {
        false
    } else if a.len() == 0 {
        true
    } else if a[0] != b[0] {
        (a[0] as u32) < (b[0] as u32)
    } else {
        text_lt(a.drop_first(), b.drop_first())
    }
}

/// `text_lt` never relates a text to itself.
pub proof fn lemma_text_lt_irrefl(a: Seq<char>)
    ensures
        !text_lt(a, a),
    decreases a.len(),
{
    if a.len() > 0 {
        lemma_text_lt_irrefl(a.drop_first());
    }
}

/// `text_lt` is transitive.
pub proof fn lemma_text_lt_trans(a: Seq<char>, b: Seq<char>, c: Seq<char>)
    requires
        text_lt(a, b),
        text_lt(b, c),
    ensures
        text_lt(a, c),
    decreases a.len(),
{
    if a.len() > 0 && b.len() > 0 && c.len() > 0 {
        if a[0] == b[0] && b[0] == c[0] {
            lemma_text_lt_trans(a.drop_first(), b.drop_first(), c.drop_first());
        }
    }
}

/// Two texts that `text_lt` relates in neither direction are equal.
pub proof fn lemma_text_lt_connex(a: Seq<char>, b: Seq<char>)
    ensures
        text_lt(a, b) || text_lt(b, a) || a == b,
    decreases a.len(),
{
    if a.len() == 0 && b.len() == 0 {
        assert(a =~= b);
    } else if a.len() > 0 && b.len() > 0 && a[0] != b[0] {
        vstd::utf8::char_u32_cast(a[0], a[0] as u32);
        vstd::utf8::char_u32_cast(b[0], b[0] as u32);
        assert((a[0] as u32) != (b[0] as u32));
    } else if a.len() > 0 && b.len() > 0 && a[0] == b[0] {
        lemma_text_lt_connex(a.drop_first(), b.drop_first());
        if !text_lt(a, b) && !text_lt(b, a) {
            assert(a.drop_first() == b.drop_first());
            assert(a =~= b) by {
                assert(forall|k: int|
                    1 <= k < a.len() ==> #[trigger] a[k] == a.drop_first()[k - 1]);
                assert(forall|k: int|
                    1 <= k < b.len() ==> #[trigger] b[k] == b.drop_first()[k - 1]);
            }
        }
    }
}

/// Looking past an equal prefix does not change how two texts compare.
pub proof fn lemma_text_lt_skip(a: Seq<char>, b: Seq<char>, i: int)
    requires
        0 <= i <= a.len(),
        i <= b.len(),
        forall|k: int| 0 <= k < i ==> a[k] == b[k],
    ensures
        text_lt(a, b) == text_lt(a.skip(i), b.skip(i)),
    decreases i,
{
    if i > 0 {
        assert(a[0] == b[0]);
        assert(a.len() > 0 && b.len() > 0);
        assert(forall|k: int|
            0 <= k < i - 1 ==> #[trigger] a.drop_first()[k] == a[k + 1] && b.drop_first()[k] == b[k
                + 1]);
        lemma_text_lt_skip(a.drop_first(), b.drop_first(), i - 1);
        assert(a.drop_first().skip(i - 1) =~= a.skip(i));
        assert(b.drop_first().skip(i - 1) =~= b.skip(i));
    } else {
        assert(a.skip(0) =~= a);
        assert(b.skip(0) =~= b);
    }
}

/// The display order of items: by the explicit order value, with the
/// identifier text as the tie-break.
pub open spec fn item_le(a: Item, b: Item) -> bool {
    ||| a.child_order < b.child_order
    ||| (a.child_order == b.child_order && !text_lt(b.id@, a.id@))
}

/// The display order of sections: by the explicit order value, with the
/// identifier text as the tie-break.
pub open spec fn section_le(a: Section, b: Section) -> bool {
    ||| a.section_order < b.section_order
    ||| (a.section_order == b.section_order && !text_lt(b.id@, a.id@))
}

/// `item_le` relates every pair of items one way or the other.
pub proof fn lemma_item_le_total(a: Item, b: Item)
    ensures
        item_le(a, b) || item_le(b, a),
{
    if a.child_order == b.child_order && text_lt(b.id@, a.id@) && text_lt(a.id@, b.id@) {
        lemma_text_lt_trans(a.id@, b.id@, a.id@);
        lemma_text_lt_irrefl(a.id@);
    }
}

/// `item_le` is transitive.
pub proof fn lemma_item_le_trans(a: Item, b: Item, c: Item)
    requires
        item_le(a, b),
        item_le(b, c),
    ensures
        item_le(a, c),
{
    if a.child_order == b.child_order && b.child_order == c.child_order {
        if text_lt(c.id@, a.id@) {
            lemma_text_lt_connex(a.id@, b.id@);
            if text_lt(a.id@, b.id@) {
                lemma_text_lt_trans(c.id@, a.id@, b.id@);
            } else if a.id@ == b.id@ {
            } else {
                assert(text_lt(b.id@, a.id@));
            }
        }
    }
}

/// `section_le` relates every pair of sections one way or the other.
pub proof fn lemma_section_le_total(a: Section, b: Section)
    ensures
        section_le(a, b) || section_le(b, a),
{
    if a.section_order == b.section_order && text_lt(b.id@, a.id@) && text_lt(a.id@, b.id@) {
        lemma_text_lt_trans(a.id@, b.id@, a.id@);
        lemma_text_lt_irrefl(a.id@);
    }
}

/// `section_le` is transitive.
pub proof fn lemma_section_le_trans(a: Section, b: Section, c: Section)
    requires
        section_le(a, b),
        section_le(b, c),
    ensures
        section_le(a, c),
{
    if a.section_order == b.section_order && b.section_order == c.section_order {
        if text_lt(c.id@, a.id@) {
            lemma_text_lt_connex(a.id@, b.id@);
            if text_lt(a.id@, b.id@) {
                lemma_text_lt_trans(c.id@, a.id@, b.id@);
            } else if a.id@ == b.id@ {
            } else {
                assert(text_lt(b.id@, a.id@));
            }
        }
    }
}

/// Where a new item lands in a display-ordered list: right before the first
/// entry that does not come at or before it.
pub open spec fn insert_sorted_spec(s: Seq<Item>, x: Item) -> Seq<Item>
    decreases s.len(),
{
    if s.len() == 0 {
        seq![x]
    } else if item_le(s[0], x) {
        seq![s[0]] + insert_sorted_spec(s.drop_first(), x)
    } else {
        seq![x] + s
    }
}

/// The display ordering of a listing, settled item by item in the order the
/// replica holds them.
pub open spec fn sort_items_spec(s: Seq<Item>) -> Seq<Item>
    decreases s.len(),
{
    if s.len() == 0 {
        Seq::empty()
    } else {
        insert_sorted_spec(sort_items_spec(s.drop_last()), s.last())
    }
}

/// `insert_sorted_spec` puts the new item at the first position whose entry
/// does not come at or before it.
pub proof fn lemma_insert_sorted_spec(s: Seq<Item>, x: Item, p: int)
    requires
        0 <= p <= s.len(),
        forall|k: int| 0 <= k < p ==> item_le(#[trigger] s[k], x),
        p < s.len() ==> !item_le(s[p], x),
    ensures
        insert_sorted_spec(s, x) == s.take(p) + seq![x] + s.skip(p),
    decreases s.len(),
{
    if s.len() == 0 {
        assert(insert_sorted_spec(s, x) =~= s.take(0) + seq![x] + s.skip(0));
    } else if item_le(s[0], x) {
        assert(p >= 1) by {
            if p == 0 {
                assert(!item_le(s[0], x));
            }
        }
        assert(forall|k: int|
            0 <= k < s.drop_first().len() ==> #[trigger] s.drop_first()[k] == s[k + 1]);
        lemma_insert_sorted_spec(s.drop_first(), x, p - 1);
        assert(seq![s[0]] + (s.drop_first().take(p - 1) + seq![x] + s.drop_first().skip(p - 1))
            =~= s.take(p) + seq![x] + s.skip(p));
    } else {
        assert(p == 0) by {
            if p >= 1 {
                assert(item_le(s[0], x));
            }
        }
        assert(seq![x] + s =~= s.take(0) + seq![x] + s.skip(0));
    }
}

/// Settling an item into a listing makes it one entry longer.
pub proof fn lemma_insert_sorted_len(s: Seq<Item>, x: Item)
    ensures
        insert_sorted_spec(s, x).len() == s.len() + 1,
    decreases s.len(),
{
    if s.len() > 0 && item_le(s[0], x) {
        lemma_insert_sorted_len(s.drop_first(), x);
    }
}

/// The display ordering keeps the listing's length.
pub proof fn lemma_sort_items_len(s: Seq<Item>)
    ensures
        sort_items_spec(s).len() == s.len(),
    decreases s.len(),
{
    if s.len() > 0 {
        lemma_sort_items_len(s.drop_last());
        lemma_insert_sorted_len(sort_items_spec(s.drop_last()), s.last());
    }
}

/// The items behind a sequence of references.
pub open spec fn items_of(s: Seq<&Item>) -> Seq<Item> {
    Seq::new(s.len(), |i: int| *s[i])
}

/// The sections behind a sequence of references.
pub open spec fn sections_of(s: Seq<&Section>) -> Seq<Section> {
    Seq::new(s.len(), |i: int| *s[i])
}

/// Whether a list of item references reads in display order.
pub open spec fn ref_items_sorted(s: Seq<&Item>) -> bool {
    forall|i: int, j: int|
        0 <= i < j < s.len() ==> item_le(*(#[trigger] s[i]), *(#[trigger] s[j]))
}

/// Whether a list of section references reads in display order.
pub open spec fn ref_sections_sorted(s: Seq<&Section>) -> bool {
    forall|i: int, j: int|
        0 <= i < j < s.len() ==> section_le(*(#[trigger] s[i]), *(#[trigger] s[j]))
}

/// The items of the project `inbox_id`, with the done ones left out where
/// `filter_complete` asks for that, in replica order.
pub open spec fn inbox_items_spec(
    items: Seq<Item>,
    inbox_id: Seq<char>,
    filter_complete: bool,
) -> Seq<Item>
    decreases items.len(),
{
    if items.len() == 0 {
        Seq::empty()
    } else {
        let prefix = inbox_items_spec(items.drop_last(), inbox_id, filter_complete);
        if items.last().project_id@ == inbox_id && (!filter_complete || !items.last().checked) {
            prefix.push(items.last())
        } else {
            prefix
        }
    }
}

/// The items of the project `project_id`, in replica order.
pub open spec fn project_items_spec(items: Seq<Item>, project_id: Seq<char>) -> Seq<Item>
    decreases items.len(),
{
    if items.len() == 0 {
        Seq::empty()
    } else {
        let prefix = project_items_spec(items.drop_last(), project_id);
        if items.last().project_id@ == project_id {
            prefix.push(items.last())
        } else {
            prefix
        }
    }
}

/// Whether an item belongs to the given section of the given project;
/// `None` stands for the part of the project outside every section.
pub open spec fn in_section(it: Item, project_id: Seq<char>, section: Option<Seq<char>>) -> bool {
    it.project_id@ == project_id && (match (it.section_id, section) {
        (Some(s), Some(t)) => s@ == t,
        (None, None) => true,
        _ => false,
    })
}

/// The items of one section of a project, in replica order.
pub open spec fn section_group_spec(
    items: Seq<Item>,
    project_id: Seq<char>,
    section: Option<Seq<char>>,
) -> Seq<Item>
    decreases items.len(),
{
    if items.len() == 0 {
        Seq::empty()
    } else {
        let prefix = section_group_spec(items.drop_last(), project_id, section);
        if in_section(items.last(), project_id, section) {
            prefix.push(items.last())
        } else {
            prefix
        }
    }
}

/// The sections of the project `project_id`, in replica order.
pub open spec fn project_sections_spec(sections: Seq<Section>, project_id: Seq<char>) -> Seq<
    Section,
>
    decreases sections.len(),
{
    if sections.len() == 0 {
        Seq::empty()
    } else {
        let prefix = project_sections_spec(sections.drop_last(), project_id);
        if sections.last().project_id@ == project_id {
            prefix.push(sections.last())
        } else {
            prefix
        }
    }
}

/// Whether a sequence of sections reads in display order.
pub open spec fn sections_seq_sorted(s: Seq<Section>) -> bool {
    forall|i: int, j: int| 0 <= i < j < s.len() ==> section_le(#[trigger] s[i], #[trigger] s[j])
}

/// The section of each group past the leading section-less one.
pub open spec fn groups_sections(r: Seq<(Option<&Section>, Vec<&Item>)>) -> Seq<Section> {
    Seq::new(
        if r.len() == 0 {
            0
        } else {
            (r.len() - 1) as nat
        },
        |g: int|
            match r[g + 1].0 {
                Some(s) => *s,
                None => vstd::pervasive::arbitrary(),
            },
    )
}

/// The key a group files its items under.
pub open spec fn group_key(o: Option<&Section>) -> Option<Seq<char>> {
    match o {
        Some(s) => Some(s.id@),
        None => None,
    }
}

/// Every item of the inbox listing is an item of the replica.
pub proof fn lemma_inbox_spec_subset(items: Seq<Item>, inbox_id: Seq<char>, filter_complete: bool)
    ensures
        forall|x: Item|
            #[trigger] inbox_items_spec(items, inbox_id, filter_complete).contains(x)
                ==> items.contains(x),
    decreases items.len(),
{
    if items.len() > 0 {
        lemma_inbox_spec_subset(items.drop_last(), inbox_id, filter_complete);
        let sub = inbox_items_spec(items.drop_last(), inbox_id, filter_complete);
        let whole = inbox_items_spec(items, inbox_id, filter_complete);
        assert forall|x: Item| #[trigger] whole.contains(x) implies items.contains(x) by {
            if sub.contains(x) {
                assert(items.drop_last().contains(x));
                let p = choose|p: int|
                    0 <= p < items.drop_last().len() && items.drop_last()[p] == x;
                assert(items[p] == x);
            } else {
                assert(x == items.last());
                assert(items[items.len() - 1] == x);
            }
        }
    }
}

/// The effect of completing the item `id` on a replica, as `mark_item`
/// promises it: the item's done flag is set, and a completion command joins
/// the queue unless one is already queued.
pub open spec fn marked_complete(prior: Model, now: Model, id: Seq<char>) -> bool {
    &&& has_item(prior.items@, id)
    &&& now.items@ == prior.items@.update(
        item_index(prior.items@, id),
        Item { checked: true, ..prior.items@[item_index(prior.items@, id)] },
    )
    &&& now.sync_token == prior.sync_token
    &&& now.projects == prior.projects
    &&& now.sections == prior.sections
    &&& now.user == prior.user
    &&& if has_complete_command(prior.commands@, id) {
        now.commands@ == prior.commands@
    } else {
        &&& now.commands@ == prior.commands@.push(now.commands@.last())
        &&& complete_command_for(now.commands@.last(), id)
        &&& now.commands@.last().request_type@ == "item_complete"@
        &&& now.commands@.last().temp_id is None
    }
}

/// Inserting anywhere in a sequence adds exactly one occurrence to its
/// multiset.
pub proof fn lemma_insert_to_multiset<A>(s: Seq<A>, q: int, x: A)
    requires
        0 <= q <= s.len(),
    ensures
        s.insert(q, x).to_multiset() == s.to_multiset().insert(x),
{
    broadcast use vstd::seq_lib::group_to_multiset_ensures;

    let t = s.insert(q, x);
    assert(t[q] == x);
    assert(t.remove(q) =~= s);
    assert(t.remove(q).to_multiset() =~= t.to_multiset().remove(x));
    assert(t.contains(x));
    assert(t.to_multiset().count(x) > 0);
    assert(t.to_multiset() =~= s.to_multiset().insert(x));
}

/// Whether `c` is the queued completion command for the item whose
/// identifier reads `id`.
pub open spec fn complete_command_for(c: Command, id: Seq<char>) -> bool {
    match c.args {
        Args::CompleteItemCommandArgs(a) => a.id@ == id,
        _ => false,
    }
}

/// The position of the first queued completion command for `id`, or `-1`.
pub open spec fn complete_command_index(cmds: Seq<Command>, id: Seq<char>) -> int
    decreases cmds.len(),
{
    if cmds.len() == 0 {
        -1
    } else if complete_command_for(cmds[0], id) {
        0
    } else {
        let rest = complete_command_index(cmds.drop_first(), id);
        if rest == -1 {
            -1
        } else {
            rest + 1
        }
    }
}

/// Whether a completion command for `id` is queued.
pub open spec fn has_complete_command(cmds: Seq<Command>, id: Seq<char>) -> bool {
    complete_command_index(cmds, id) != -1
}

/// What `complete_command_index` returns: `-1` exactly where no completion
/// command for `id` is queued, and otherwise the position of the first one.
pub proof fn lemma_complete_command_index(cmds: Seq<Command>, id: Seq<char>)
    ensures
        complete_command_index(cmds, id) == -1 <==> (forall|k: int|
            0 <= k < cmds.len() ==> !complete_command_for(#[trigger] cmds[k], id)),
        complete_command_index(cmds, id) != -1 ==> {
            let j = complete_command_index(cmds, id);
            &&& 0 <= j < cmds.len()
            &&& complete_command_for(cmds[j], id)
            &&& forall|k: int| 0 <= k < j ==> !complete_command_for(#[trigger] cmds[k], id)
        },
    decreases cmds.len(),
{
    if cmds.len() > 0 && !complete_command_for(cmds[0], id) {
        lemma_complete_command_index(cmds.drop_first(), id);
        assert(forall|k: int|
            0 <= k < cmds.drop_first().len() ==> #[trigger] cmds.drop_first()[k] == cmds[k + 1]);
        let rest = complete_command_index(cmds.drop_first(), id);
        if rest == -1 {
            assert forall|k: int| 0 <= k < cmds.len() implies !complete_command_for(
                #[trigger] cmds[k],
                id,
            ) by {
                if k > 0 {
                    assert(cmds.drop_first()[k - 1] == cmds[k]);
                }
            }
        } else {
            assert(cmds.drop_first()[rest] == cmds[rest + 1]);
            assert forall|k: int| 0 <= k < rest + 1 implies !complete_command_for(
                #[trigger] cmds[k],
                id,
            ) by {
                if k > 0 {
                    assert(cmds.drop_first()[k - 1] == cmds[k]);
                }
            }
        }
    }
}

/// The queue with the first completion command for `id` removed, where one
/// is queued; otherwise the queue unchanged.
pub open spec fn remove_first_complete_command(cmds: Seq<Command>, id: Seq<char>) -> Seq<Command> {
    let j = complete_command_index(cmds, id);
    if j == -1 {
        cmds
    } else {
        cmds.remove(j)
    }
}

/// The position of `key` in the acknowledgement pairs, or `-1`.
pub open spec fn ack_index(acks: Seq<(String, Status)>, key: Seq<char>) -> int
    decreases acks.len(),
{
    if acks.len() == 0 {
        -1
    } else if acks[0].0@ == key {
        0
    } else {
        let rest = ack_index(acks.drop_first(), key);
        if rest == -1 {
            -1
        } else {
            rest + 1
        }
    }
}

/// What `ack_index` returns: `-1` exactly where the key is absent from the
/// acknowledgement pairs, and otherwise the position of its first entry.
pub proof fn lemma_ack_index(acks: Seq<(String, Status)>, key: Seq<char>)
    ensures
        ack_index(acks, key) == -1 <==> (forall|k: int|
            0 <= k < acks.len() ==> (#[trigger] acks[k].0)@ != key),
        ack_index(acks, key) != -1 ==> {
            let j = ack_index(acks, key);
            &&& 0 <= j < acks.len()
            &&& acks[j].0@ == key
            &&& forall|k: int| 0 <= k < j ==> (#[trigger] acks[k].0)@ != key
        },
    decreases acks.len(),
{
    if acks.len() > 0 && acks[0].0@ != key {
        lemma_ack_index(acks.drop_first(), key);
        assert(forall|k: int|
            0 <= k < acks.drop_first().len() ==> #[trigger] acks.drop_first()[k] == acks[k + 1]);
        let rest = ack_index(acks.drop_first(), key);
        if rest == -1 {
            assert forall|k: int| 0 <= k < acks.len() implies (#[trigger] acks[k].0)@ != key by {
                if k > 0 {
                    assert(acks.drop_first()[k - 1] == acks[k]);
                }
            }
        } else {
            assert(acks.drop_first()[rest] == acks[rest + 1]);
            assert forall|k: int| 0 <= k < rest + 1 implies (#[trigger] acks[k].0)@ != key by {
                if k > 0 {
                    assert(acks.drop_first()[k - 1] == acks[k]);
                }
            }
        }
    }
}

/// Whether the acknowledgement pairs map `key` to an Ok status.
pub open spec fn acked_ok(acks: Seq<(String, Status)>, key: Seq<char>) -> bool {
    let j = ack_index(acks, key);
    j != -1 && acks[j].1 is Okay
}

/// The command queue after an acknowledgement map is applied: exactly the
/// commands whose key the map sends to Ok leave the queue.  Commands absent
/// from the map, or mapped to an error, stay queued.
pub open spec fn commands_kept(cmds: Seq<Command>, acks: Seq<(String, Status)>) -> Seq<Command>
    decreases cmds.len(),
{
    if cmds.len() == 0 {
        cmds
    } else {
        let prefix = commands_kept(cmds.drop_last(), acks);
        if acked_ok(acks, cmds.last().uuid@) {
            prefix
        } else {
            prefix.push(cmds.last())
        }
    }
}

/// The local, persisted replica of the task list: the entity collections,
/// the sync cursor, and the queue of commands not yet acknowledged.
#[derive(Debug)]
pub struct Model {
    pub sync_token: String,
    pub items: Vec<Item>,
    pub projects: Vec<Project>,
    pub sections: Vec<Section>,
    pub user: User,
    pub commands: Vec<Command>,
}

impl Default for Model {
    /// A fresh replica: no prior knowledge of the server (`"*"` cursor), a
    /// synthesized default project that serves as the inbox, and an empty
    /// queue.
    fn default() -> (r: Self)
        ensures
            r.sync_token@ == "*"@,
            r.items@ == Seq::<Item>::empty(),
            r.projects@.len() == 1,
            r.projects@[0].name@ == "Inbox"@,
            r.projects@[0].parent_id is None,
            r.user.inbox_project_id@ == r.projects@[0].id@,
            r.sections@ == Seq::<Section>::empty(),
            r.commands@ == Seq::<Command>::empty(),
    {
        let inbox = Project::new("Inbox");
        let user = User { inbox_project_id: inbox.id.clone(), full_name: String::new() };
        let mut projects: Vec<Project> = Vec::new();
        projects.push(inbox);
        Model {
            sync_token: "*".to_owned(),
            items: Vec::new(),
            projects,
            sections: Vec::new(),
            user,
            commands: Vec::new(),
        }
    }
}

/// Finds the position of the first item of `items` whose identifier reads
/// the same as `key`.
fn find_item_position(items: &Vec<Item>, key: &String) -> (r: Option<usize>)
    ensures
        r matches Some(j) ==> 0 <= j < items@.len() && item_index(items@, key@) == j,
        r is None ==> item_index(items@, key@) == -1,
{
    let n = items.len();
    let mut i: usize = 0;
    while i < n
        invariant
            n == items@.len(),
            0 <= i <= n,
            forall|k: int| 0 <= k < i ==> (#[trigger] items@[k].id)@ != key@,
        decreases n - i,
    {
        if items[i].id.0 == *key {
            proof {
                lemma_item_index(items@, key@);
            }
            return Some(i);
        }
        i += 1;
    }
    proof {
        lemma_item_index(items@, key@);
    }
    None
}

impl Model {
    /// Records a freshly created task.  The task gets a random local
    /// identifier, and an `item_add` command carrying that identifier as its
    /// correlation key joins the queue.  Always succeeds.
    pub fn add_item(&mut self, item: &str, project_id: project::Id, due_date: Option<Due>)
        ensures
            final(self).items@ == old(self).items@.push(final(self).items@.last()),
            ({
                let it = final(self).items@.last();
                &&& it.content@ == item@
                &&& it.project_id@ == project_id@
                &&& !it.checked
                &&& it.due == due_date
                &&& it.parent_id is None
                &&& it.child_order == 0
                &&& it.section_id is None
                &&& !it.collapsed
            }),
            final(self).commands@ == old(self).commands@.push(final(self).commands@.last()),
            ({
                let c = final(self).commands@.last();
                &&& c.request_type@ == "item_add"@
                &&& c.temp_id matches Some(t) && t@ == final(self).items@.last().id@
                &&& c.args matches Args::AddItemCommandArgs(a) && a.project_id@ == project_id@
                    && a.content@ == item@ && a.due == due_date
            }),
            final(self).sync_token == old(self).sync_token,
            final(self).projects == old(self).projects,
            final(self).sections == old(self).sections,
            final(self).user == old(self).user,
    {
        let new_item = Item::new(item, project_id.clone()).due(due_date);

        self.commands.push(Command {
            request_type: "item_add".to_owned(),
            temp_id: Some(new_item.id.0.clone()),
            uuid: fresh_uuid_string(),
            args: Args::AddItemCommandArgs(AddItemArgs {
                project_id,
                content: item.to_owned(),
                due: due_date,
            }),
        });
        self.items.push(new_item);
    }

    /// Records a freshly created task in the user's inbox project.
    pub fn add_item_to_inbox(&mut self, item: &str, due_date: Option<Due>)
        ensures
            final(self).items@ == old(self).items@.push(final(self).items@.last()),
            ({
                let it = final(self).items@.last();
                &&& it.content@ == item@
                &&& it.project_id@ == old(self).user.inbox_project_id@
                &&& !it.checked
                &&& it.due == due_date
            }),
            final(self).commands@ == old(self).commands@.push(final(self).commands@.last()),
            ({
                let c = final(self).commands@.last();
                &&& c.request_type@ == "item_add"@
                &&& c.temp_id matches Some(t) && t@ == final(self).items@.last().id@
                &&& c.args matches Args::AddItemCommandArgs(a) && a.project_id@ == old(
                    self,
                ).user.inbox_project_id@ && a.content@ == item@ && a.due == due_date
            }),
            final(self).sync_token == old(self).sync_token,
            final(self).projects == old(self).projects,
            final(self).sections == old(self).sections,
            final(self).user == old(self).user,
    {
        let project_id = self.user.inbox_project_id.clone();
        self.add_item(item, project_id, due_date);
    }

    /// Marks an item as complete (or uncomplete) and creates (removes) a corresponding command.
    ///
    /// Completing queues an `item_complete` command unless one is already
    /// queued for this item; uncompleting removes the queued one instead of
    /// appending an opposing command.
    ///
    /// # Note
    /// This no-ops if an item with the given id does not exist, so check before calling.
    pub fn mark_item(&mut self, item_id: &item::Id, complete: bool)
        ensures
            !has_item(old(self).items@, item_id@) ==> *final(self) == *old(self),
            has_item(old(self).items@, item_id@) ==> {
                let j = item_index(old(self).items@, item_id@);
                &&& final(self).items@ == old(self).items@.update(
                    j,
                    Item { checked: complete, ..old(self).items@[j] },
                )
                &&& final(self).sync_token == old(self).sync_token
                &&& final(self).projects == old(self).projects
                &&& final(self).sections == old(self).sections
                &&& final(self).user == old(self).user
            },
            has_item(old(self).items@, item_id@) && complete && !has_complete_command(
                old(self).commands@,
                item_id@,
            ) ==> {
                &&& final(self).commands@ == old(self).commands@.push(
                    final(self).commands@.last(),
                )
                &&& complete_command_for(final(self).commands@.last(), item_id@)
                &&& final(self).commands@.last().request_type@ == "item_complete"@
                &&& final(self).commands@.last().temp_id is None
            },
            has_item(old(self).items@, item_id@) && complete && has_complete_command(
                old(self).commands@,
                item_id@,
            ) ==> final(self).commands@ == old(self).commands@,
            has_item(old(self).items@, item_id@) && !complete ==> final(self).commands@
                == remove_first_complete_command(old(self).commands@, item_id@),
    {
        let found = find_item_position(&self.items, &item_id.0);
        let j = match found {
            Some(j) => j,
            None => {
                return ;
            },
        };
        proof {
            lemma_item_index(old(self).items@, item_id@);
        }

        let mut it = self.items.remove(j);
        it.mark_complete(complete);
        let the_id = it.id.clone();
        self.items.insert(j, it);
        proof {
            assert(self.items@ =~= old(self).items@.update(
                item_index(old(self).items@, item_id@),
                Item { checked: complete, ..old(self).items@[item_index(old(self).items@, item_id@)] },
            ));
        }

        if complete {
            // Add a new command, unless one is already queued for this item
            if !has_queued_complete_command(&self.commands, &item_id.0) {
                self.commands.push(Command {
                    request_type: "item_complete".to_owned(),
                    temp_id: None,
                    uuid: fresh_uuid_string(),
                    args: Args::CompleteItemCommandArgs(CompleteItemArgs { id: the_id }),
                });
            }
        } else {
            // If there was a pending command to mark this item completed, remove it
            let cmd_index = find_complete_command_position(&self.commands, &item_id.0);
            if let Some(ci) = cmd_index {
                self.commands.remove(ci);
            }
        }
    }
}

/// Unrolls `remap_all` by one mapping pair, prefix by prefix.
proof fn lemma_remap_all_step(items: Seq<Item>, mapping: Seq<(String, String)>, i: int)
    requires
        0 <= i < mapping.len(),
    ensures
        remap_all(items, mapping.take(i + 1)) == remap_one(
            remap_all(items, mapping.take(i)),
            mapping[i].0@,
            mapping[i].1,
        ),
{
    assert(mapping.take(i + 1).drop_last() =~= mapping.take(i));
    assert(mapping.take(i + 1).last() == mapping[i]);
}

/// Unrolls `apply_all` by one incoming item, prefix by prefix.
proof fn lemma_apply_all_step(items: Seq<Item>, incoming: Seq<Item>, i: int)
    requires
        0 <= i < incoming.len(),
    ensures
        apply_all(items, incoming.take(i + 1)) == apply_one(
            apply_all(items, incoming.take(i)),
            incoming[i],
        ),
{
    assert(incoming.take(i + 1).drop_last() =~= incoming.take(i));
    assert(incoming.take(i + 1).last() == incoming[i]);
}

/// Unrolls `commands_kept` by one command, prefix by prefix.
proof fn lemma_commands_kept_step(cmds: Seq<Command>, acks: Seq<(String, Status)>, i: int)
    requires
        0 <= i < cmds.len(),
    ensures
        commands_kept(cmds.take(i + 1), acks) == if acked_ok(acks, cmds[i].uuid@) {
            commands_kept(cmds.take(i), acks)
        } else {
            commands_kept(cmds.take(i), acks).push(cmds[i])
        },
{
    assert(cmds.take(i + 1).drop_last() =~= cmds.take(i));
    assert(cmds.take(i + 1).last() == cmds[i]);
}

/// Looks `key` up among the acknowledgement pairs and reports whether it is
/// mapped to an Ok status.
fn ack_lookup_ok(acks: &Vec<(String, Status)>, key: &String) -> (r: bool)
    ensures
        r == acked_ok(acks@, key@),
{
    let n = acks.len();
    let mut i: usize = 0;
    while i < n
        invariant
            n == acks@.len(),
            0 <= i <= n,
            forall|k: int| 0 <= k < i ==> (#[trigger] acks@[k].0)@ != key@,
        decreases n - i,
    {
        if acks[i].0 == *key {
            proof {
                lemma_ack_index(acks@, key@);
            }
            let r = match &acks[i].1 {
                Status::Okay => true,
                Status::Error(_) => false,
            };
            return r;
        }
        i += 1;
    }
    proof {
        lemma_ack_index(acks@, key@);
    }
    false
}

impl Model {
    /// Merges a server response into the replica.  The cursor is adopted
    /// unconditionally; the user record is replaced where one came back; the
    /// project and section collections are replaced wholesale where the
    /// response carries a non-empty one; the item collection is replaced
    /// verbatim by a full snapshot or reconciled by the identifier remap and
    /// the upsert/tombstone pass; and exactly the commands acknowledged with
    /// an Ok status leave the queue.
    pub fn update(&mut self, response: Response)
        ensures
            final(self).sync_token == response.sync_token,
            final(self).user == (match response.user {
                Some(u) => u,
                None => old(self).user,
            }),
            final(self).projects@ == replace_if_nonempty(old(self).projects@, response.projects@),
            final(self).sections@ == replace_if_nonempty(old(self).sections@, response.sections@),
            final(self).items@ == merged_items(
                old(self).items@,
                response.full_sync,
                response.items@,
                response.temp_id_mapping@,
            ),
            final(self).commands@ == (match response.sync_status {
                Some(acks) => commands_kept(old(self).commands@, acks@),
                None => old(self).commands@,
            }),
    {
        let Response {
            sync_token,
            projects,
            sections,
            items: incoming,
            user,
            full_sync,
            sync_status,
            temp_id_mapping,
        } = response;

        self.sync_token = sync_token;

        if let Some(u) = user {
            self.user = u;
        }

        // Replace the project and section collections only where the
        // response carries entities of that kind: an empty collection cannot
        // be told apart from one that was not requested.
        if projects.len() > 0 {
            self.projects = projects;
        }
        if sections.len() > 0 {
            self.sections = sections;
        }

        if full_sync {
            // a full snapshot replaces the set of items verbatim
            self.items = incoming;
        } else {
            let mut items: Vec<Item> = Vec::new();
            core::mem::swap(&mut items, &mut self.items);
            let ghost items0 = items@;

            // Identifier remap: rewrite, in place, the identifier of every
            // item a mapping pair refers to.  This must run before the
            // upsert pass, which matches incoming items by identifier.
            let mlen = temp_id_mapping.len();
            let mut mi: usize = 0;
            while mi < mlen
                invariant
                    mlen == temp_id_mapping@.len(),
                    0 <= mi <= mlen,
                    items@ == remap_all(items0, temp_id_mapping@.take(mi as int)),
                decreases mlen - mi,
            {
                let found = find_item_position(&items, &temp_id_mapping[mi].0);
                if let Some(j) = found {
                    let mut it = items.remove(j);
                    it.id = item::Id(temp_id_mapping[mi].1.clone());
                    items.insert(j, it);
                }
                proof {
                    lemma_remap_all_step(items0, temp_id_mapping@, mi as int);
                    assert(items@ =~= remap_all(items0, temp_id_mapping@.take(mi as int + 1)));
                }
                mi += 1;
            }
            proof {
                assert(temp_id_mapping@.take(mlen as int) =~= temp_id_mapping@);
            }
            let ghost base = items@;

            // Upsert/tombstone pass over the incoming delta.
            let ilen = incoming.len();
            let mut ii: usize = 0;
            while ii < ilen
                invariant
                    ilen == incoming@.len(),
                    0 <= ii <= ilen,
                    items@ == apply_all(base, incoming@.take(ii as int)),
                decreases ilen - ii,
            {
                let inc = incoming[ii].clone();
                let found = find_item_position(&items, &inc.id.0);
                match found {
                    Some(j) => {
                        if inc.checked {
                            items.remove(j);
                        } else {
                            items.remove(j);
                            items.insert(j, inc);
                        }
                    },
                    None => {
                        if !inc.checked {
                            items.push(inc);
                        }
                    },
                }
                proof {
                    lemma_apply_all_step(base, incoming@, ii as int);
                    assert(items@ =~= apply_all(base, incoming@.take(ii as int + 1)));
                }
                ii += 1;
            }
            proof {
                assert(incoming@.take(ilen as int) =~= incoming@);
            }
            self.items = items;
        }

        // Update the command list by removing the commands that succeeded.
        if let Some(acks) = sync_status {
            let mut cmds: Vec<Command> = Vec::new();
            core::mem::swap(&mut cmds, &mut self.commands);
            let mut kept: Vec<Command> = Vec::new();
            let clen = cmds.len();
            let mut ci: usize = 0;
            while ci < clen
                invariant
                    clen == cmds@.len(),
                    0 <= ci <= clen,
                    kept@ == commands_kept(cmds@.take(ci as int), acks@),
                decreases clen - ci,
            {
                if !ack_lookup_ok(&acks, &cmds[ci].uuid) {
                    kept.push(cmds[ci].clone());
                }
                proof {
                    lemma_commands_kept_step(cmds@, acks@, ci as int);
                }
                ci += 1;
            }
            proof {
                assert(cmds@.take(clen as int) =~= cmds@);
            }
            self.commands = kept;
        }
    }
}

/// Finds the position of the first queued completion command for `key`.
fn find_complete_command_position(cmds: &Vec<Command>, key: &String) -> (r: Option<usize>)
    ensures
        r matches Some(j) ==> 0 <= j < cmds@.len() && complete_command_index(cmds@, key@) == j,
        r is None ==> complete_command_index(cmds@, key@) == -1,
{
    let n = cmds.len();
    let mut i: usize = 0;
    while i < n
        invariant
            n == cmds@.len(),
            0 <= i <= n,
            forall|k: int| 0 <= k < i ==> !complete_command_for(#[trigger] cmds@[k], key@),
        decreases n - i,
    {
        let is_match = match &cmds[i].args {
            Args::CompleteItemCommandArgs(a) => a.id.0 == *key,
            _ => false,
        };
        if is_match {
            proof {
                lemma_complete_command_index(cmds@, key@);
            }
            return Some(i);
        }
        i += 1;
    }
    proof {
        lemma_complete_command_index(cmds@, key@);
    }
    None
}

/// Whether a completion command for `key` is queued.
fn has_queued_complete_command(cmds: &Vec<Command>, key: &String) -> (r: bool)
    ensures
        r == has_complete_command(cmds@, key@),
{
    let found = find_complete_command_position(cmds, key);
    match found {
        Some(_) => true,
        None => false,
    }
}

/// The position of the first project of `projects` whose identifier reads
/// `id`, or `-1` where there is none.
pub open spec fn project_index(projects: Seq<Project>, id: Seq<char>) -> int
    decreases projects.len(),
{
    if projects.len() == 0 {
        -1
    } else if projects[0].id@ == id {
        0
    } else {
        let rest = project_index(projects.drop_first(), id);
        if rest == -1 {
            -1
        } else {
            rest + 1
        }
    }
}

/// Whether some project of `projects` has the identifier `id`.
pub open spec fn has_project(projects: Seq<Project>, id: Seq<char>) -> bool {
    project_index(projects, id) != -1
}

/// What `project_index` returns: `-1` exactly where no project carries
/// `id`, and otherwise the position of the first that does.
pub proof fn lemma_project_index(projects: Seq<Project>, id: Seq<char>)
    ensures
        project_index(projects, id) == -1 <==> (forall|k: int|
            0 <= k < projects.len() ==> (#[trigger] projects[k].id)@ != id),
        project_index(projects, id) != -1 ==> {
            let j = project_index(projects, id);
            &&& 0 <= j < projects.len()
            &&& projects[j].id@ == id
            &&& forall|k: int| 0 <= k < j ==> (#[trigger] projects[k].id)@ != id
        },
    decreases projects.len(),
{
    if projects.len() > 0 && projects[0].id@ != id {
        lemma_project_index(projects.drop_first(), id);
        assert(forall|k: int|
            0 <= k < projects.drop_first().len() ==> #[trigger] projects.drop_first()[k]
                == projects[k + 1]);
        let rest = project_index(projects.drop_first(), id);
        if rest == -1 {
            assert forall|k: int|
                0 <= k < projects.len() implies (#[trigger] projects[k].id)@ != id by {
                if k > 0 {
                    assert(projects.drop_first()[k - 1] == projects[k]);
                }
            }
        } else {
            assert(projects.drop_first()[rest] == projects[rest + 1]);
            assert forall|k: int| 0 <= k < rest + 1 implies (#[trigger] projects[k].id)@ != id by {
                if k > 0 {
                    assert(projects.drop_first()[k - 1] == projects[k]);
                }
            }
        }
    }
}

/// Finds the position of the first project of `projects` whose identifier
/// reads the same as `key`.
fn find_project_position(projects: &Vec<Project>, key: &String) -> (r: Option<usize>)
    ensures
        r matches Some(j) ==> 0 <= j < projects@.len() && project_index(projects@, key@) == j,
        r is None ==> project_index(projects@, key@) == -1,
{
    let n = projects.len();
    let mut i: usize = 0;
    while i < n
        invariant
            n == projects@.len(),
            0 <= i <= n,
            forall|k: int| 0 <= k < i ==> (#[trigger] projects@[k].id)@ != key@,
        decreases n - i,
    {
        if projects[i].id.0 == *key {
            proof {
                lemma_project_index(projects@, key@);
            }
            return Some(i);
        }
        i += 1;
    }
    proof {
        lemma_project_index(projects@, key@);
    }
    None
}

impl Model {
    /// The inbox listing: the items of the user's inbox project, without
    /// the done ones where `filter_complete` asks for that, in display
    /// order.
    #[must_use]
    pub fn get_inbox_items(&self, filter_complete: bool) -> (r: Vec<&Item>)
        ensures
            ref_items_sorted(r@),
            items_of(r@) == sort_items_spec(
                inbox_items_spec(self.items@, self.user.inbox_project_id@, filter_complete),
            ),
            items_of(r@).to_multiset() == inbox_items_spec(
                self.items@,
                self.user.inbox_project_id@,
                filter_complete,
            ).to_multiset(),
    {
        let n = self.items.len();
        let mut r: Vec<&Item> = Vec::new();
        let mut idx: usize = 0;
        proof {
            assert(items_of(r@) =~= Seq::<Item>::empty());
            assert(self.items@.take(0).len() == 0);
        }
        while idx < n
            invariant
                n == self.items@.len(),
                idx <= n,
                ref_items_sorted(r@),
                items_of(r@) == sort_items_spec(
                    inbox_items_spec(
                        self.items@.take(idx as int),
                        self.user.inbox_project_id@,
                        filter_complete,
                    ),
                ),
                items_of(r@).to_multiset() == inbox_items_spec(
                    self.items@.take(idx as int),
                    self.user.inbox_project_id@,
                    filter_complete,
                ).to_multiset(),
            decreases n - idx,
        {
            let ghost prev = inbox_items_spec(
                self.items@.take(idx as int),
                self.user.inbox_project_id@,
                filter_complete,
            );
            let it = &self.items[idx];
            if it.project_id == self.user.inbox_project_id && (!filter_complete || !it.checked) {
                insert_item_sorted(&mut r, it);
            }
            proof {
                assert(self.items@.take(idx as int + 1).drop_last() =~= self.items@.take(
                    idx as int,
                ));
                assert(self.items@.take(idx as int + 1).last() == self.items@[idx as int]);
                prev.to_multiset_ensures();
                let next = inbox_items_spec(
                    self.items@.take(idx as int + 1),
                    self.user.inbox_project_id@,
                    filter_complete,
                );
                if next != prev {
                    assert(next.drop_last() =~= prev);
                    assert(next.last() == self.items@[idx as int]);
                }
            }
            idx += 1;
        }
        proof {
            assert(self.items@.take(n as int) =~= self.items@);
        }
        r
    }

    /// The items of one project, in display order.
    #[must_use]
    pub fn items_in_project(&self, project_id: &project::Id) -> (r: Vec<&Item>)
        ensures
            ref_items_sorted(r@),
            items_of(r@) == sort_items_spec(project_items_spec(self.items@, project_id@)),
            items_of(r@).to_multiset() == project_items_spec(
                self.items@,
                project_id@,
            ).to_multiset(),
    {
        let n = self.items.len();
        let mut r: Vec<&Item> = Vec::new();
        let mut idx: usize = 0;
        proof {
            assert(items_of(r@) =~= Seq::<Item>::empty());
            assert(self.items@.take(0).len() == 0);
        }
        while idx < n
            invariant
                n == self.items@.len(),
                idx <= n,
                ref_items_sorted(r@),
                items_of(r@) == sort_items_spec(
                    project_items_spec(self.items@.take(idx as int), project_id@),
                ),
                items_of(r@).to_multiset() == project_items_spec(
                    self.items@.take(idx as int),
                    project_id@,
                ).to_multiset(),
            decreases n - idx,
        {
            let ghost prev = project_items_spec(self.items@.take(idx as int), project_id@);
            let it = &self.items[idx];
            if it.project_id == *project_id {
                insert_item_sorted(&mut r, it);
            }
            proof {
                assert(self.items@.take(idx as int + 1).drop_last() =~= self.items@.take(
                    idx as int,
                ));
                assert(self.items@.take(idx as int + 1).last() == self.items@[idx as int]);
                prev.to_multiset_ensures();
                let next = project_items_spec(self.items@.take(idx as int + 1), project_id@);
                if next != prev {
                    assert(next.drop_last() =~= prev);
                    assert(next.last() == self.items@[idx as int]);
                }
            }
            idx += 1;
        }
        proof {
            assert(self.items@.take(n as int) =~= self.items@);
        }
        r
    }

    /// All projects, in replica order.
    #[must_use]
    pub fn projects(&self) -> (r: Vec<&Project>)
        ensures
            r@.len() == self.projects@.len(),
            forall|i: int| 0 <= i < r@.len() ==> *(#[trigger] r@[i]) == self.projects@[i],
    {
        let n = self.projects.len();
        let mut r: Vec<&Project> = Vec::new();
        let mut idx: usize = 0;
        while idx < n
            invariant
                n == self.projects@.len(),
                idx <= n,
                r@.len() == idx,
                forall|i: int| 0 <= i < r@.len() ==> *(#[trigger] r@[i]) == self.projects@[i],
            decreases n - idx,
        {
            r.push(&self.projects[idx]);
            idx += 1;
        }
        r
    }

    /// The user's inbox project.  The replica must hold one: a fresh
    /// replica synthesizes it, and a snapshot from the server carries it.
    #[must_use]
    pub fn inbox_project(&self) -> (r: &Project)
        requires
            has_project(self.projects@, self.user.inbox_project_id@),
        ensures
            *r == self.projects@[project_index(self.projects@, self.user.inbox_project_id@)],
    {
        let found = find_project_position(&self.projects, &self.user.inbox_project_id.0);
        match found {
            Some(j) => &self.projects[j],
            None => vstd::pervasive::unreached(),
        }
    }

    /// The items of one section of one project (`None`: the part of the
    /// project outside every section), in display order.
    fn group_items(&self, project_id: &project::Id, section: Option<&section::Id>) -> (r: Vec<
        &Item,
    >)
        ensures
            ref_items_sorted(r@),
            items_of(r@) == sort_items_spec(
                section_group_spec(
                    self.items@,
                    project_id@,
                    match section {
                        Some(s) => Some(s@),
                        None => None,
                    },
                ),
            ),
            items_of(r@).to_multiset() == section_group_spec(
                self.items@,
                project_id@,
                match section {
                    Some(s) => Some(s@),
                    None => None,
                },
            ).to_multiset(),
    {
        let ghost key: Option<Seq<char>> = match section {
            Some(s) => Some(s@),
            None => None,
        };
        let n = self.items.len();
        let mut r: Vec<&Item> = Vec::new();
        let mut idx: usize = 0;
        proof {
            assert(items_of(r@) =~= Seq::<Item>::empty());
            assert(self.items@.take(0).len() == 0);
        }
        while idx < n
            invariant
                n == self.items@.len(),
                idx <= n,
                ref_items_sorted(r@),
                items_of(r@) == sort_items_spec(
                    section_group_spec(self.items@.take(idx as int), project_id@, key),
                ),
                items_of(r@).to_multiset() == section_group_spec(
                    self.items@.take(idx as int),
                    project_id@,
                    key,
                ).to_multiset(),
                key == (match section {
                    Some(s) => Some(s@),
                    None => None::<Seq<char>>,
                }),
            decreases n - idx,
        {
            let ghost prev = section_group_spec(self.items@.take(idx as int), project_id@, key);
            let it = &self.items[idx];
            let in_group = it.project_id == *project_id && (match (&it.section_id, section) {
                (Some(a), Some(b)) => *a == *b,
                (None, None) => true,
                _ => false,
            });
            if in_group {
                insert_item_sorted(&mut r, it);
            }
            proof {
                assert(self.items@.take(idx as int + 1).drop_last() =~= self.items@.take(
                    idx as int,
                ));
                assert(self.items@.take(idx as int + 1).last() == self.items@[idx as int]);
                prev.to_multiset_ensures();
                let next = section_group_spec(self.items@.take(idx as int + 1), project_id@, key);
                if next != prev {
                    assert(next.drop_last() =~= prev);
                    assert(next.last() == self.items@[idx as int]);
                }
            }
            idx += 1;
        }
        proof {
            assert(self.items@.take(n as int) =~= self.items@);
        }
        r
    }

    /// The sections of one project and their items: first the part of the
    /// project outside every section, then each section in display order,
    /// each with its items in display order.
    #[must_use]
    pub fn sections_and_items_in_project(&self, project_id: &project::Id) -> (r: Vec<
        (Option<&Section>, Vec<&Item>),
    >)
        ensures
            r@.len() >= 1,
            r@[0].0 is None,
            forall|g: int| 1 <= g < r@.len() ==> (#[trigger] r@[g]).0 is Some,
            sections_seq_sorted(groups_sections(r@)),
            groups_sections(r@).to_multiset() == project_sections_spec(
                self.sections@,
                project_id@,
            ).to_multiset(),
            forall|g: int| 0 <= g < r@.len() ==> ref_items_sorted((#[trigger] r@[g]).1@),
            forall|g: int|
                0 <= g < r@.len() ==> items_of((#[trigger] r@[g]).1@) == sort_items_spec(
                    section_group_spec(self.items@, project_id@, group_key(r@[g].0)),
                ),
            forall|g: int|
                0 <= g < r@.len() ==> items_of((#[trigger] r@[g]).1@).to_multiset()
                    == section_group_spec(
                    self.items@,
                    project_id@,
                    group_key(r@[g].0),
                ).to_multiset(),
    {
        let sn = self.sections.len();
        let mut secs: Vec<&Section> = Vec::new();
        let mut si: usize = 0;
        proof {
            assert(sections_of(secs@) =~= Seq::<Section>::empty());
            assert(self.sections@.take(0).len() == 0);
        }
        while si < sn
            invariant
                sn == self.sections@.len(),
                si <= sn,
                ref_sections_sorted(secs@),
                sections_of(secs@).to_multiset() == project_sections_spec(
                    self.sections@.take(si as int),
                    project_id@,
                ).to_multiset(),
            decreases sn - si,
        {
            let ghost prev = project_sections_spec(self.sections@.take(si as int), project_id@);
            let sec = &self.sections[si];
            if sec.project_id == *project_id {
                insert_section_sorted(&mut secs, sec);
            }
            proof {
                assert(self.sections@.take(si as int + 1).drop_last() =~= self.sections@.take(
                    si as int,
                ));
                assert(self.sections@.take(si as int + 1).last() == self.sections@[si as int]);
                prev.to_multiset_ensures();
            }
            si += 1;
        }
        proof {
            assert(self.sections@.take(sn as int) =~= self.sections@);
        }

        let mut r: Vec<(Option<&Section>, Vec<&Item>)> = Vec::new();
        let none_items = self.group_items(project_id, None);
        r.push((None, none_items));
        let mut gi: usize = 0;
        while gi < secs.len()
            invariant
                gi <= secs@.len(),
                r@.len() == gi + 1,
                r@[0].0 is None,
                ref_sections_sorted(secs@),
                sections_of(secs@).to_multiset() == project_sections_spec(
                    self.sections@,
                    project_id@,
                ).to_multiset(),
                forall|g: int|
                    1 <= g < r@.len() ==> ((#[trigger] r@[g]).0 matches Some(s) && s == secs@[g
                        - 1]),
                forall|g: int| 0 <= g < r@.len() ==> ref_items_sorted((#[trigger] r@[g]).1@),
                forall|g: int|
                    0 <= g < r@.len() ==> items_of((#[trigger] r@[g]).1@) == sort_items_spec(
                        section_group_spec(self.items@, project_id@, group_key(r@[g].0)),
                    ),
                forall|g: int|
                    0 <= g < r@.len() ==> items_of((#[trigger] r@[g]).1@).to_multiset()
                        == section_group_spec(
                        self.items@,
                        project_id@,
                        group_key(r@[g].0),
                    ).to_multiset(),
            decreases secs@.len() - gi,
        {
            let sec = secs[gi];
            let sec_items = self.group_items(project_id, Some(&sec.id));
            r.push((Some(sec), sec_items));
            gi += 1;
        }
        proof {
            assert(groups_sections(r@) =~= sections_of(secs@)) by {
                assert(forall|g: int|
                    0 <= g < secs@.len() ==> #[trigger] groups_sections(r@)[g] == *secs@[g]);
            }
        }
        r
    }

    /// The first project with the given identifier, where one exists.
    #[must_use]
    pub fn project_with_id(&self, id: &project::Id) -> (r: Option<&Project>)
        ensures
            r is Some <==> has_project(self.projects@, id@),
            r matches Some(p) ==> *p == self.projects@[project_index(self.projects@, id@)],
    {
        let found = find_project_position(&self.projects, &id.0);
        match found {
            Some(j) => Some(&self.projects[j]),
            None => None,
        }
    }
}

/// Compares two identifier texts character by character.
fn id_text_lt(a: &str, b: &str) -> (r: bool)
    ensures
        r == text_lt(a@, b@),
{
    let alen = a.unicode_len();
    let blen = b.unicode_len();
    let mut i: usize = 0;
    let mut decided: bool = false;
    let mut verdict: bool = false;
    while !decided && i < alen && i < blen
        invariant
            alen == a@.len(),
            blen == b@.len(),
            decided ==> verdict == text_lt(a@, b@),
            !decided ==> i <= alen && i <= blen && (forall|k: int| 0 <= k < i ==> a@[k] == b@[k]),
        decreases alen - i + if decided {
            0int
        } else {
            1int
        },
    {
        let ca = a.get_char(i);
        let cb = b.get_char(i);
        if ca != cb {
            proof {
                lemma_text_lt_skip(a@, b@, i as int);
                assert(a@.skip(i as int)[0] == a@[i as int]);
                assert(b@.skip(i as int)[0] == b@[i as int]);
            }
            verdict = (ca as u32) < (cb as u32);
            decided = true;
        } else {
            i += 1;
        }
    }
    if decided {
        verdict
    } else {
        proof {
            lemma_text_lt_skip(a@, b@, i as int);
            if i < blen {
                assert(b@.skip(i as int).len() > 0);
            }
        }
        alen < blen
    }
}

/// Compares two items by the display order.
fn item_le_exec(a: &Item, b: &Item) -> (r: bool)
    ensures
        r == item_le(*a, *b),
{
    if a.child_order != b.child_order {
        a.child_order < b.child_order
    } else {
        !id_text_lt(b.id.0.as_str(), a.id.0.as_str())
    }
}

/// Compares two sections by the display order.
fn section_le_exec(a: &Section, b: &Section) -> (r: bool)
    ensures
        r == section_le(*a, *b),
{
    if a.section_order != b.section_order {
        a.section_order < b.section_order
    } else {
        !id_text_lt(b.id.0.as_str(), a.id.0.as_str())
    }
}

/// Inserts an item reference into a list that reads in display order,
/// keeping the order.
fn insert_item_sorted<'a>(list: &mut Vec<&'a Item>, it: &'a Item)
    requires
        ref_items_sorted(old(list)@),
    ensures
        ref_items_sorted(final(list)@),
        items_of(final(list)@) == insert_sorted_spec(items_of(old(list)@), *it),
        items_of(final(list)@).to_multiset() == items_of(old(list)@).to_multiset().insert(*it),
{
    let n = list.len();
    let mut p: usize = 0;
    let mut stop: bool = false;
    while !stop && p < n
        invariant
            n == list@.len(),
            list@ == old(list)@,
            p <= n,
            forall|k: int| 0 <= k < p ==> item_le(*(#[trigger] list@[k]), *it),
            stop ==> p < n && !item_le(*list@[p as int], *it),
        decreases n - p + if stop {
            0int
        } else {
            1int
        },
    {
        if !item_le_exec(list[p], it) {
            stop = true;
        } else {
            p += 1;
        }
    }
    proof {
        assert forall|k: int| p <= k < n implies item_le(*it, *(#[trigger] list@[k])) by {
            lemma_item_le_total(*list@[p as int], *it);
            if k > p {
                lemma_item_le_trans(*it, *list@[p as int], *list@[k]);
            }
        }
    }
    let ghost before = list@;
    list.insert(p, it);
    proof {
        assert(list@ == before.insert(p as int, it));
        assert forall|i: int, j: int|
            0 <= i < j < list@.len() implies item_le(*(#[trigger] list@[i]), *(#[trigger] list@[j])) by {
            let pi: int = p as int;
            if i < pi && j < pi {
                assert(list@[i] == before[i] && list@[j] == before[j]);
            } else if i < pi && j == pi {
                assert(list@[i] == before[i]);
            } else if i < pi && j > pi {
                assert(list@[i] == before[i] && list@[j] == before[j - 1]);
            } else if i == pi && j > pi {
                assert(list@[j] == before[j - 1]);
            } else if i > pi && j > pi {
                assert(list@[i] == before[i - 1] && list@[j] == before[j - 1]);
            }
        }
        assert(items_of(list@) =~= items_of(before).insert(p as int, *it)) by {
            assert(forall|k: int|
                0 <= k < p ==> #[trigger] items_of(list@)[k] == items_of(before)[k]);
            assert(items_of(list@)[p as int] == *it);
            assert(forall|k: int|
                p < k < list@.len() ==> #[trigger] items_of(list@)[k] == items_of(before)[k - 1]);
        }
        lemma_insert_to_multiset(items_of(before), p as int, *it);
        assert(forall|k: int|
            0 <= k < before.len() ==> #[trigger] items_of(before)[k] == *before[k]);
        lemma_insert_sorted_spec(items_of(before), *it, p as int);
        assert(items_of(before).take(p as int) + seq![*it] + items_of(before).skip(p as int)
            =~= items_of(before).insert(p as int, *it));
    }
}

/// Inserts a section reference into a list that reads in display order,
/// keeping the order.
fn insert_section_sorted<'a>(list: &mut Vec<&'a Section>, sec: &'a Section)
    requires
        ref_sections_sorted(old(list)@),
    ensures
        ref_sections_sorted(final(list)@),
        sections_of(final(list)@).to_multiset() == sections_of(old(list)@).to_multiset().insert(
            *sec,
        ),
{
    let n = list.len();
    let mut p: usize = 0;
    let mut stop: bool = false;
    while !stop && p < n
        invariant
            n == list@.len(),
            list@ == old(list)@,
            p <= n,
            forall|k: int| 0 <= k < p ==> section_le(*(#[trigger] list@[k]), *sec),
            stop ==> p < n && !section_le(*list@[p as int], *sec),
        decreases n - p + if stop {
            0int
        } else {
            1int
        },
    {
        if !section_le_exec(list[p], sec) {
            stop = true;
        } else {
            p += 1;
        }
    }
    proof {
        assert forall|k: int| p <= k < n implies section_le(*sec, *(#[trigger] list@[k])) by {
            lemma_section_le_total(*list@[p as int], *sec);
            if k > p {
                lemma_section_le_trans(*sec, *list@[p as int], *list@[k]);
            }
        }
    }
    let ghost before = list@;
    list.insert(p, sec);
    proof {
        assert(list@ == before.insert(p as int, sec));
        assert forall|i: int, j: int|
            0 <= i < j < list@.len() implies section_le(
            *(#[trigger] list@[i]),
            *(#[trigger] list@[j]),
        ) by {
            let pi: int = p as int;
            if i < pi && j < pi {
                assert(list@[i] == before[i] && list@[j] == before[j]);
            } else if i < pi && j == pi {
                assert(list@[i] == before[i]);
            } else if i < pi && j > pi {
                assert(list@[i] == before[i] && list@[j] == before[j - 1]);
            } else if i == pi && j > pi {
                assert(list@[j] == before[j - 1]);
            } else if i > pi && j > pi {
                assert(list@[i] == before[i - 1] && list@[j] == before[j - 1]);
            }
        }
        assert(sections_of(list@) =~= sections_of(before).insert(p as int, *sec)) by {
            assert(forall|k: int|
                0 <= k < p ==> #[trigger] sections_of(list@)[k] == sections_of(before)[k]);
            assert(sections_of(list@)[p as int] == *sec);
            assert(forall|k: int|
                p < k < list@.len() ==> #[trigger] sections_of(list@)[k] == sections_of(before)[k
                    - 1]);
        }
        lemma_insert_to_multiset(sections_of(before), p as int, *sec);
    }
}

} // verus!
