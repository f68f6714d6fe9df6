//! The store's cross-operation guarantees, stated and proved over the
//! same specifications the operations' contracts use.

use vstd::prelude::*;

use crate::amount::amount_micros;
use crate::amount::amount_string;
use crate::amount::lemma_amount_string_round_trip;
use crate::amount::valid_amount;
use crate::models::CardDtoV;
use crate::ops_card::create_card_post;
use crate::ops_card::eligible_cards;
use crate::ops_card::spec_archive_card;
use crate::ops_card::spec_archive_sweep;
use crate::ops_card::spec_list_archived_cards;
use crate::ops_card::spec_list_cards;
use crate::ops_card::spec_unarchive_card;
use crate::ops_card::sweep_card;
use crate::ops_card::sweep_eligible;
use crate::ops_todo::add_todo_post;
use crate::order::lemma_sort_stable_contains;
use crate::order::sort_stable;
use crate::search::entry_matches;
use crate::search::entry_text;
use crate::search::has_prefix;
use crate::search::entry_results_of;
use crate::search::matching_entries;
use crate::search::take50;
use crate::store::CardV;
use crate::store::EntryV;
use crate::store::StoreView;
use crate::store::active_cards;
use crate::store::archived_cards;
use crate::store::archived_desc_rel;
use crate::store::card_dto_of;
use crate::store::card_dtos_of;
use crate::store::card_entry;
use crate::store::card_idx;
use crate::store::created_desc_rel;
use crate::store::has_card;
use crate::store::lemma_todos_without_unique;
use crate::store::lemma_unique_card_idx;
use crate::store::todos_without;

verus! {

/// Each active-listing element is an unarchived card of the table, and
/// every unarchived card of the table is listed.
proof fn lemma_active_cards_elems(cs: Seq<CardV>)
    ensures
        forall|k: int|
            0 <= k < active_cards(cs).len() ==> !(#[trigger] active_cards(cs)[k]).archived
                && cs.contains(active_cards(cs)[k]),
        forall|j: int| 0 <= j < cs.len() && !cs[j].archived ==> active_cards(cs).contains(
            #[trigger] cs[j],
        ),
    decreases cs.len(),
{
    if cs.len() > 0 {
        let d = cs.drop_last();
        lemma_active_cards_elems(d);
        assert forall|k: int| 0 <= k < active_cards(cs).len() implies !(#[trigger] active_cards(
            cs,
        )[k]).archived && cs.contains(active_cards(cs)[k]) by {
            if k < active_cards(d).len() {
                assert(active_cards(cs)[k] == active_cards(d)[k]);
                let j = choose|j: int| 0 <= j < d.len() && d[j] == active_cards(d)[k];
                assert(cs[j] == active_cards(cs)[k]);
            } else {
                assert(active_cards(cs)[k] == cs.last());
                assert(cs[cs.len() - 1] == active_cards(cs)[k]);
            }
        }
        assert forall|j: int| 0 <= j < cs.len() && !cs[j].archived implies active_cards(
            cs,
        ).contains(#[trigger] cs[j]) by {
            if j < cs.len() - 1 {
                assert(d[j] == cs[j]);
                assert(active_cards(d).contains(cs[j]));
                let k = choose|k: int| 0 <= k < active_cards(d).len() && active_cards(d)[k] == cs[j];
                assert(active_cards(cs)[k] == cs[j]);
            } else {
                assert(active_cards(cs)[active_cards(cs).len() - 1] == cs[j]);
            }
        }
    }
}

/// Each archived-listing element is an archived card of the table, and
/// every archived card of the table is listed.
proof fn lemma_archived_cards_elems(cs: Seq<CardV>)
    ensures
        forall|k: int|
            0 <= k < archived_cards(cs).len() ==> (#[trigger] archived_cards(cs)[k]).archived
                && cs.contains(archived_cards(cs)[k]),
        forall|j: int| 0 <= j < cs.len() && cs[j].archived ==> archived_cards(cs).contains(
            #[trigger] cs[j],
        ),
    decreases cs.len(),
{
    if cs.len() > 0 {
        let d = cs.drop_last();
        lemma_archived_cards_elems(d);
        assert forall|k: int| 0 <= k < archived_cards(cs).len() implies (
        #[trigger] archived_cards(cs)[k]).archived && cs.contains(archived_cards(cs)[k]) by {
            if k < archived_cards(d).len() {
                assert(archived_cards(cs)[k] == archived_cards(d)[k]);
                let j = choose|j: int| 0 <= j < d.len() && d[j] == archived_cards(d)[k];
                assert(cs[j] == archived_cards(cs)[k]);
            } else {
                assert(archived_cards(cs)[k] == cs.last());
                assert(cs[cs.len() - 1] == archived_cards(cs)[k]);
            }
        }
        assert forall|j: int| 0 <= j < cs.len() && cs[j].archived implies archived_cards(
            cs,
        ).contains(#[trigger] cs[j]) by {
            if j < cs.len() - 1 {
                assert(d[j] == cs[j]);
                assert(archived_cards(d).contains(cs[j]));
                let k = choose|k: int|
                    0 <= k < archived_cards(d).len() && archived_cards(d)[k] == cs[j];
                assert(archived_cards(cs)[k] == cs[j]);
            } else {
                assert(archived_cards(cs)[archived_cards(cs).len() - 1] == cs[j]);
            }
        }
    }
}

/// Creating a card and reading it back shows the requested amount
/// rounded to six decimal places: the stored balance is exactly the
/// parsed micros, and the rendered amount is its fixed six-place form.
pub proof fn lemma_create_then_get_amount(
    pre: StoreView,
    post: StoreView,
    id: Seq<char>,
    log_id: Seq<char>,
    title: Option<Seq<char>>,
    a: Seq<char>,
    now: Seq<char>,
    dto: CardDtoV,
)
    requires
        pre.wf(),
        create_card_post(pre, post, id, log_id, title, a, now, dto),
        -1_000_000_000_000_000_000 < amount_micros(a) < 1_000_000_000_000_000_000,
    ensures
        post.cards[card_idx(post.cards, id)].amount == amount_micros(a),
        card_dto_of(post.cards[card_idx(post.cards, id)]).amount == amount_string(
            amount_micros(a),
        ),
        dto.amount == amount_string(amount_micros(a)),
        amount_string(amount_micros(a)).len() >= 8,
        amount_string(amount_micros(a))[amount_string(amount_micros(a)).len() - 7] == '.',
        valid_amount(amount_string(amount_micros(a))),
        amount_micros(amount_string(amount_micros(a))) == amount_micros(a),
{
    let n = pre.cards.len() as int;
    assert(post.cards[n].id == id);
    assert forall|p: int, q: int| 0 <= p < q < post.cards.len() implies #[trigger] post.cards[p].id
        != #[trigger] post.cards[q].id by {
        if q < n {
            assert(post.cards[p] == pre.cards[p]);
            assert(post.cards[q] == pre.cards[q]);
        } else {
            assert(post.cards[p] == pre.cards[p]);
            assert(!has_card(pre.cards, id));
        }
    }
    lemma_unique_card_idx(post.cards, id, n);
    lemma_amount_string_round_trip(amount_micros(a));
}

/// Deleting a card leaves no todo of it, and no row about it in the
/// search projection, card rows and todo rows alike.
pub proof fn lemma_delete_card_cascades(pre: StoreView, post: StoreView, id: Seq<char>)
    requires
        pre.wf(),
        has_card(pre.cards, id),
        post.cards == pre.cards.remove(card_idx(pre.cards, id)),
        post.todos == todos_without(pre.todos, id),
    ensures
        forall|k: int| 0 <= k < post.todos.len() ==> (#[trigger] post.todos[k]).card_id != id,
        forall|k: int|
            0 <= k < post.search_index().len() ==> (#[trigger] post.search_index()[k]).card_id
                != id,
{
    let i = card_idx(pre.cards, id);
    lemma_todos_without_unique(pre.todos, id);
    let nc = post.cards.len() as int;
    assert forall|k: int| 0 <= k < post.search_index().len() implies (
    #[trigger] post.search_index()[k]).card_id != id by {
        if k < nc {
            assert(post.search_index()[k] == card_entry(post.cards[k]));
            let k0 = if k < i {
                k
            } else {
                k + 1
            };
            assert(post.cards[k] == pre.cards[k0]);
            if k0 < i {
                assert(pre.cards[k0].id != pre.cards[i].id);
            } else {
                assert(pre.cards[i].id != pre.cards[k0].id);
            }
        } else {
            assert(post.search_index()[k] == crate::store::todo_entry(post.todos[k - nc]));
        }
    }
}

/// Archiving takes a card out of the active listing and into the
/// archived one; unarchiving it brings it back and takes it out again.
pub proof fn lemma_archive_listing_round_trip(
    cards: Seq<CardV>,
    id: Seq<char>,
    now: Seq<char>,
    now2: Seq<char>,
)
    requires
        forall|p: int, q: int|
            0 <= p < q < cards.len() ==> #[trigger] cards[p].id != #[trigger] cards[q].id,
        has_card(cards, id),
    ensures
        forall|m: int|
            0 <= m < spec_list_cards(spec_archive_card(cards, id, now)).len() ==> (
            #[trigger] spec_list_cards(spec_archive_card(cards, id, now))[m]).id != id,
        exists|m: int|
            0 <= m < spec_list_archived_cards(spec_archive_card(cards, id, now)).len() && (
            #[trigger] spec_list_archived_cards(spec_archive_card(cards, id, now))[m]).id == id,
        forall|m: int|
            0 <= m < spec_list_archived_cards(
                spec_unarchive_card(spec_archive_card(cards, id, now), id, now2),
            ).len() ==> (#[trigger] spec_list_archived_cards(
                spec_unarchive_card(spec_archive_card(cards, id, now), id, now2),
            )[m]).id != id,
        exists|m: int|
            0 <= m < spec_list_cards(
                spec_unarchive_card(spec_archive_card(cards, id, now), id, now2),
            ).len() && (#[trigger] spec_list_cards(
                spec_unarchive_card(spec_archive_card(cards, id, now), id, now2),
            )[m]).id == id,
{
    let i = card_idx(cards, id);
    assert(0 <= i < cards.len() && cards[i].id == id);
    let ar = spec_archive_card(cards, id, now);
    assert forall|m: int| 0 <= m < ar.len() implies #[trigger] ar[m].id == cards[m].id by {
        if m != i {
            assert(ar[m] == cards[m]);
        }
    }
    lemma_unique_card_idx(ar, id, i);
    let back = spec_unarchive_card(ar, id, now2);
    assert forall|m: int| 0 <= m < back.len() implies #[trigger] back[m].id == cards[m].id by {
        if m != i {
            assert(back[m] == ar[m]);
        }
    }
    lemma_archive_half(ar, id, i);
    lemma_unarchive_half(back, id, i);
}

/// In a table whose card at `i` carries `id` archived, with unique ids,
/// the active listing misses `id` and the archived listing shows it.
proof fn lemma_archive_half(cs: Seq<CardV>, id: Seq<char>, i: int)
    requires
        forall|p: int, q: int|
            0 <= p < q < cs.len() ==> #[trigger] cs[p].id != #[trigger] cs[q].id,
        0 <= i < cs.len(),
        cs[i].id == id,
        cs[i].archived,
    ensures
        forall|m: int|
            0 <= m < spec_list_cards(cs).len() ==> (#[trigger] spec_list_cards(cs)[m]).id != id,
        exists|m: int|
            0 <= m < spec_list_archived_cards(cs).len() && (#[trigger] spec_list_archived_cards(
                cs,
            )[m]).id == id,
{
    lemma_active_cards_elems(cs);
    lemma_archived_cards_elems(cs);
    let act = sort_stable(active_cards(cs), created_desc_rel());
    assert forall|m: int| 0 <= m < spec_list_cards(cs).len() implies (#[trigger] spec_list_cards(
        cs,
    )[m]).id != id by {
        assert(spec_list_cards(cs)[m] == card_dto_of(act[m]));
        if act[m].id == id {
            lemma_sort_stable_contains(active_cards(cs), created_desc_rel(), act[m]);
            assert(act.contains(act[m]));
            assert(active_cards(cs).contains(act[m]));
            let k = choose|k: int|
                0 <= k < active_cards(cs).len() && active_cards(cs)[k] == act[m];
            let j = choose|j: int| 0 <= j < cs.len() && cs[j] == act[m];
            if j < i {
                assert(cs[j].id != cs[i].id);
            } else if j > i {
                assert(cs[i].id != cs[j].id);
            }
        }
    }
    // The archived card itself is listed.
    assert(archived_cards(cs).contains(cs[i]));
    lemma_sort_stable_contains(archived_cards(cs), archived_desc_rel(), cs[i]);
    let arc = sort_stable(archived_cards(cs), archived_desc_rel());
    let m = choose|m: int| 0 <= m < arc.len() && arc[m] == cs[i];
    assert(spec_list_archived_cards(cs)[m] == card_dto_of(cs[i]));
    assert((spec_list_archived_cards(cs)[m]).id == id);
}

/// The mirror image for a card carrying `id` unarchived.
proof fn lemma_unarchive_half(cs: Seq<CardV>, id: Seq<char>, i: int)
    requires
        forall|p: int, q: int|
            0 <= p < q < cs.len() ==> #[trigger] cs[p].id != #[trigger] cs[q].id,
        0 <= i < cs.len(),
        cs[i].id == id,
        !cs[i].archived,
    ensures
        forall|m: int|
            0 <= m < spec_list_archived_cards(cs).len() ==> (#[trigger] spec_list_archived_cards(
                cs,
            )[m]).id != id,
        exists|m: int|
            0 <= m < spec_list_cards(cs).len() && (#[trigger] spec_list_cards(cs)[m]).id == id,
{
    lemma_active_cards_elems(cs);
    lemma_archived_cards_elems(cs);
    let arc = sort_stable(archived_cards(cs), archived_desc_rel());
    assert forall|m: int| 0 <= m < spec_list_archived_cards(cs).len() implies (
    #[trigger] spec_list_archived_cards(cs)[m]).id != id by {
        assert(spec_list_archived_cards(cs)[m] == card_dto_of(arc[m]));
        if arc[m].id == id {
            lemma_sort_stable_contains(archived_cards(cs), archived_desc_rel(), arc[m]);
            assert(archived_cards(cs).contains(arc[m]));
            let j = choose|j: int| 0 <= j < cs.len() && cs[j] == arc[m];
            if j < i {
                assert(cs[j].id != cs[i].id);
            } else if j > i {
                assert(cs[i].id != cs[j].id);
            }
        }
    }
    assert(active_cards(cs).contains(cs[i]));
    lemma_sort_stable_contains(active_cards(cs), created_desc_rel(), cs[i]);
    let act = sort_stable(active_cards(cs), created_desc_rel());
    let m = choose|m: int| 0 <= m < act.len() && act[m] == cs[i];
    assert(spec_list_cards(cs)[m] == card_dto_of(cs[i]));
    assert((spec_list_cards(cs)[m]).id == id);
}

/// No card is eligible when every card fails the sweep test.
proof fn lemma_no_eligible(cs: Seq<CardV>, cutoff: Seq<char>)
    requires
        forall|m: int| 0 <= m < cs.len() ==> !sweep_eligible(#[trigger] cs[m], cutoff),
    ensures
        eligible_cards(cs, cutoff).len() == 0,
    decreases cs.len(),
{
    if cs.len() > 0 {
        let d = cs.drop_last();
        assert forall|m: int| 0 <= m < d.len() implies !sweep_eligible(#[trigger] d[m], cutoff) by {
            assert(d[m] == cs[m]);
        }
        lemma_no_eligible(d, cutoff);
        assert(!sweep_eligible(cs[cs.len() - 1], cutoff));
    }
}

/// The archival sweep is idempotent: a second run at the same cutoff
/// takes no card and leaves the table as the first run left it.
pub proof fn lemma_archive_sweep_idempotent(
    cards: Seq<CardV>,
    cutoff: Seq<char>,
    now: Seq<char>,
    now2: Seq<char>,
)
    ensures
        eligible_cards(spec_archive_sweep(cards, cutoff, now), cutoff).len() == 0,
        spec_archive_sweep(spec_archive_sweep(cards, cutoff, now), cutoff, now2)
            == spec_archive_sweep(cards, cutoff, now),
{
    let once = spec_archive_sweep(cards, cutoff, now);
    assert forall|m: int| 0 <= m < once.len() implies !sweep_eligible(
        #[trigger] once[m],
        cutoff,
    ) by {
        assert(once[m] == sweep_card(cards[m], cutoff, now));
    }
    lemma_no_eligible(once, cutoff);
    assert(spec_archive_sweep(once, cutoff, now2) =~= once) by {
        assert forall|m: int| 0 <= m < once.len() implies #[trigger] spec_archive_sweep(
            once,
            cutoff,
            now2,
        )[m] == once[m] by {
            assert(spec_archive_sweep(once, cutoff, now2)[m] == sweep_card(
                once[m],
                cutoff,
                now2,
            ));
        }
    }
}

/// Adding a todo moves the card's balance down by exactly the todo's
/// amount, or not at all without one — even into negative balances.
pub proof fn lemma_add_todo_balance(
    pre: StoreView,
    post: StoreView,
    cid: Seq<char>,
    todo_id: Seq<char>,
    log_id: Seq<char>,
    title: Seq<char>,
    amount_raw: Option<Seq<char>>,
    scheduled_at: Option<Seq<char>>,
    now: Seq<char>,
    todo_dto: crate::models::TodoDtoV,
    card_dto: CardDtoV,
)
    requires
        add_todo_post(
            pre,
            post,
            cid,
            todo_id,
            log_id,
            title,
            amount_raw,
            scheduled_at,
            now,
            todo_dto,
            card_dto,
        ),
    ensures
        post.cards[card_idx(pre.cards, cid)].amount == pre.cards[card_idx(pre.cards, cid)].amount
            - (match amount_raw {
            Some(a) => amount_micros(a),
            None => 0,
        }),
{
    let i = card_idx(pre.cards, cid);
    assert(post.cards[i] == CardV {
        amount: pre.cards[i].amount - (match amount_raw {
            Some(a) => amount_micros(a),
            None => 0,
        }),
        updated_at: now,
        ..pre.cards[i]
    });
}

/// A matched row stays among the matches.
proof fn lemma_matching_contains(entries: Seq<EntryV>, terms: Seq<Seq<char>>, k: int)
    requires
        0 <= k < entries.len(),
        entry_matches(entry_text(entries[k]), terms),
    ensures
        matching_entries(entries, terms).contains(entries[k]),
    decreases entries.len(),
{
    if k == entries.len() - 1 {
        let me = matching_entries(entries, terms);
        assert(me[me.len() - 1] == entries[k]);
    } else {
        let d = entries.drop_last();
        assert(d[k] == entries[k]);
        lemma_matching_contains(d, terms, k);
        let j = choose|j: int|
            0 <= j < matching_entries(d, terms).len() && matching_entries(d, terms)[j] == d[k];
        assert(matching_entries(entries, terms)[j] == entries[k]);
    }
}

/// Every match is a row of the projection whose text the terms take.
proof fn lemma_matching_elems(entries: Seq<EntryV>, terms: Seq<Seq<char>>)
    ensures
        forall|k: int|
            0 <= k < matching_entries(entries, terms).len() ==> entry_matches(
                entry_text(#[trigger] matching_entries(entries, terms)[k]),
                terms,
            ) && entries.contains(matching_entries(entries, terms)[k]),
    decreases entries.len(),
{
    if entries.len() > 0 {
        let d = entries.drop_last();
        lemma_matching_elems(d, terms);
        assert forall|k: int| 0 <= k < matching_entries(entries, terms).len() implies entry_matches(
            entry_text(#[trigger] matching_entries(entries, terms)[k]),
            terms,
        ) && entries.contains(matching_entries(entries, terms)[k]) by {
            let me = matching_entries(entries, terms);
            let md = matching_entries(d, terms);
            if k < md.len() {
                assert(me[k] == md[k]);
                let j = choose|j: int| 0 <= j < d.len() && d[j] == md[k];
                assert(entries[j] == me[k]);
            } else {
                assert(me[k] == entries.last());
                assert(entries[entries.len() - 1] == me[k]);
            }
        }
    }
}

/// Searching one term that prefixes a word of a card's title finds the
/// card; after the title changes to one without such a word, no card
/// row for that card matches any longer.
pub proof fn lemma_search_prefix_round_trip(
    v: StoreView,
    v2: StoreView,
    i: int,
    term: Seq<char>,
    title2: Option<Seq<char>>,
)
    requires
        v.wf(),
        0 <= i < v.cards.len(),
        v.cards[i].title is Some,
        has_prefix(v.cards[i].title->0, term),
        v2.cards == v.cards.update(i, CardV { title: title2, ..v.cards[i] }),
        v2.todos == v.todos,
        match title2 {
            Some(t) => !has_prefix(t, term),
            None => true,
        },
    ensures
        matching_entries(v.search_index(), seq![term]).contains(card_entry(v.cards[i])),
        // Under the result cap the card reaches the returned list itself.
        matching_entries(v.search_index(), seq![term]).len() <= 50 ==> exists|m: int|
            0 <= m < entry_results_of(
                take50(matching_entries(v.search_index(), seq![term])),
                seq![term],
            ).len() && (#[trigger] entry_results_of(
                take50(matching_entries(v.search_index(), seq![term])),
                seq![term],
            )[m]).card_id == v.cards[i].id && entry_results_of(
                take50(matching_entries(v.search_index(), seq![term])),
                seq![term],
            )[m].todo_id is None,
        forall|k: int|
            0 <= k < matching_entries(v2.search_index(), seq![term]).len() ==> !((
            #[trigger] matching_entries(v2.search_index(), seq![term])[k]).todo_id is None
                && matching_entries(v2.search_index(), seq![term])[k].card_id == v.cards[i].id),
{
    let terms = seq![term];
    let e = card_entry(v.cards[i]);
    assert(v.search_index()[i] == e);
    assert(entry_text(e) == v.cards[i].title->0);
    assert(entry_matches(entry_text(e), terms)) by {
        assert(terms.last() == term);
    }
    lemma_matching_contains(v.search_index(), terms, i);
    let hits = matching_entries(v.search_index(), terms);
    if hits.len() <= 50 {
        assert(take50(hits) == hits);
        let m = choose|m: int| 0 <= m < hits.len() && hits[m] == e;
        assert(entry_results_of(take50(hits), terms)[m] == crate::search::entry_result(e, terms));
        assert((entry_results_of(take50(hits), terms)[m]).card_id == v.cards[i].id);
    }
    // After the update, no card row for this id matches.
    lemma_matching_elems(v2.search_index(), terms);
    let nc = v2.cards.len() as int;
    assert forall|k: int| 0 <= k < matching_entries(v2.search_index(), terms).len() implies !((
    #[trigger] matching_entries(v2.search_index(), terms)[k]).todo_id is None && matching_entries(
        v2.search_index(),
        terms,
    )[k].card_id == v.cards[i].id) by {
        let me = matching_entries(v2.search_index(), terms)[k];
        if me.todo_id is None && me.card_id == v.cards[i].id {
            assert(v2.search_index().contains(me));
            let j = choose|j: int| 0 <= j < v2.search_index().len() && v2.search_index()[j] == me;
            if j < nc {
                assert(v2.search_index()[j] == card_entry(v2.cards[j]));
                assert(v2.cards[j].id == me.card_id);
                assert forall|p: int| 0 <= p < v2.cards.len() implies #[trigger] v2.cards[p].id
                    == v.cards[p].id by {
                    if p != i {
                        assert(v2.cards[p] == v.cards[p]);
                    }
                }
                if j != i {
                    if j < i {
                        assert(v.cards[j].id != v.cards[i].id);
                    } else {
                        assert(v.cards[i].id != v.cards[j].id);
                    }
                }
                assert(j == i);
                assert(entry_matches(entry_text(me), terms));
                assert(me == card_entry(v2.cards[i]));
                match title2 {
                    Some(t) => {
                        assert(entry_text(me) == t);
                        assert(terms.last() == term);
                    },
                    None => {
                        assert(entry_text(me) =~= Seq::<char>::empty());
                        assert forall|p: int| !(#[trigger] crate::search::prefix_match_at(
                            Seq::<char>::empty(),
                            term,
                            p,
                        )) by {
                            assert(!crate::search::token_start(Seq::empty(), p));
                        }
                    },
                }
            } else {
                assert(v2.search_index()[j] == crate::store::todo_entry(v2.todos[j - nc]));
            }
        }
    }
}

/// The listings come back in their stated orders: active cards by
/// creation time descending, archived cards by archival time
/// descending, a card's todos by order index then creation time, and
/// the change log newest first.
pub proof fn lemma_listings_ordered(
    cards: Seq<CardV>,
    todos: Seq<crate::store::TodoV>,
    changes: Seq<crate::store::ChangeV>,
    cid: Seq<char>,
)
    ensures
        forall|p: int, q: int|
            0 <= p < q < spec_list_archived_cards(cards).len() ==> crate::text::lex_le(
                crate::store::opt_key((#[trigger] spec_list_archived_cards(cards)[q]).archived_at),
                crate::store::opt_key((#[trigger] spec_list_archived_cards(cards)[p]).archived_at),
            ),
        forall|p: int, q: int|
            0 <= p < q < crate::ops_query::spec_changes_ordered(changes).len()
                ==> crate::text::lex_le(
                (#[trigger] crate::ops_query::spec_changes_ordered(changes)[q]).created_at,
                (#[trigger] crate::ops_query::spec_changes_ordered(changes)[p]).created_at,
            ),
        forall|p: int, q: int|
            0 <= p < q < spec_list_cards(cards).len() ==> crate::text::lex_le(
                (#[trigger] spec_list_cards(cards)[q]).created_at,
                (#[trigger] spec_list_cards(cards)[p]).created_at,
            ),
        forall|p: int, q: int|
            0 <= p < q < crate::ops_card::spec_card_todos(todos, cid).len() ==> {
                let a = #[trigger] crate::ops_card::spec_card_todos(todos, cid)[p];
                let b = #[trigger] crate::ops_card::spec_card_todos(todos, cid)[q];
                a.order_index < b.order_index || (a.order_index == b.order_index
                    && crate::text::lex_le(a.created_at, b.created_at))
            },
{
    crate::store::lemma_archived_desc_order();
    crate::order::lemma_sort_stable_sorted(archived_cards(cards), archived_desc_rel());
    let arc = sort_stable(archived_cards(cards), archived_desc_rel());
    assert forall|p: int, q: int| 0 <= p < q < spec_list_archived_cards(cards).len() implies
        crate::text::lex_le(
        crate::store::opt_key((#[trigger] spec_list_archived_cards(cards)[q]).archived_at),
        crate::store::opt_key((#[trigger] spec_list_archived_cards(cards)[p]).archived_at),
    ) by {
        assert(vstd::relations::sorted_by(arc, archived_desc_rel()));
        assert(archived_desc_rel()(arc[p], arc[q]));
        assert(crate::store::archived_desc(arc[p], arc[q]));
        assert(spec_list_archived_cards(cards)[p] == card_dto_of(arc[p]));
        assert(spec_list_archived_cards(cards)[q] == card_dto_of(arc[q]));
    }
    crate::store::lemma_change_desc_order();
    crate::order::lemma_sort_stable_sorted(
        changes.reverse(),
        crate::store::change_desc_rel(),
    );
    let srt_ch = crate::ops_query::spec_changes_ordered(changes);
    assert forall|p: int, q: int| 0 <= p < q < srt_ch.len() implies crate::text::lex_le(
        (#[trigger] srt_ch[q]).created_at,
        (#[trigger] srt_ch[p]).created_at,
    ) by {
        assert(vstd::relations::sorted_by(srt_ch, crate::store::change_desc_rel()));
        assert(crate::store::change_desc_rel()(srt_ch[p], srt_ch[q]));
        assert(crate::store::change_desc(srt_ch[p], srt_ch[q]));
    }
    crate::store::lemma_created_desc_order();
    crate::order::lemma_sort_stable_sorted(active_cards(cards), created_desc_rel());
    let act = sort_stable(active_cards(cards), created_desc_rel());
    assert forall|p: int, q: int| 0 <= p < q < spec_list_cards(cards).len() implies
        crate::text::lex_le(
        (#[trigger] spec_list_cards(cards)[q]).created_at,
        (#[trigger] spec_list_cards(cards)[p]).created_at,
    ) by {
        assert(vstd::relations::sorted_by(act, created_desc_rel()));
        assert(created_desc_rel()(act[p], act[q]));
        assert(crate::store::created_desc(act[p], act[q]));
        assert(spec_list_cards(cards)[p] == card_dto_of(act[p]));
        assert(spec_list_cards(cards)[q] == card_dto_of(act[q]));
    }
    crate::store::lemma_todo_order_order();
    crate::order::lemma_sort_stable_sorted(
        crate::store::todos_of(todos, cid),
        crate::store::todo_order_rel(),
    );
    let srt = sort_stable(crate::store::todos_of(todos, cid), crate::store::todo_order_rel());
    assert forall|p: int, q: int|
        0 <= p < q < crate::ops_card::spec_card_todos(todos, cid).len() implies {
        let a = #[trigger] crate::ops_card::spec_card_todos(todos, cid)[p];
        let b = #[trigger] crate::ops_card::spec_card_todos(todos, cid)[q];
        a.order_index < b.order_index || (a.order_index == b.order_index && crate::text::lex_le(
            a.created_at,
            b.created_at,
        ))
    } by {
        assert(vstd::relations::sorted_by(srt, crate::store::todo_order_rel()));
        assert(crate::store::todo_order_rel()(srt[p], srt[q]));
        assert(crate::store::todo_order(srt[p], srt[q]));
        assert(crate::ops_card::spec_card_todos(todos, cid)[p] == crate::store::todo_dto_of(
            srt[p],
        ));
        assert(crate::ops_card::spec_card_todos(todos, cid)[q] == crate::store::todo_dto_of(
            srt[q],
        ));
    }
}

/// An empty query returns nothing without touching the store.
pub proof fn lemma_search_empty_query(v: StoreView)
    ensures
        crate::search::spec_search(v, Seq::empty()) == Seq::<crate::models::SearchResultDtoV>::empty(),
{
    assert(crate::search::query_parts(Seq::empty()) =~= Seq::<Seq<char>>::empty());
}

} // verus!
