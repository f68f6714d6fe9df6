//! Card operations: the listings, single-card reads, creation, partial
//! update, archival and unarchival, hard deletion, and the bulk
//! archival sweep.

use vstd::prelude::*;

use crate::amount::amount_micros;
use crate::amount::format_amount;
use crate::amount::parse_amount;
use crate::amount::valid_amount;
use crate::errors::AppError;
use crate::models::CardDto;
use crate::models::CardDtoV;
use crate::models::TodoDtoV;
use crate::models::card_dtos_view;
use crate::models::PayloadDto;
use crate::models::PayloadDtoV;
use crate::models::view_opt;
use crate::runtime::generate_id;
use crate::runtime::now_iso;
use crate::store::Card;
use crate::store::CardV;
use crate::store::ChangeKind;
use crate::store::ChangeRow;
use crate::store::ChangeV;
use crate::store::Store;
use crate::store::StoreView;
use crate::order::insert_by;
use crate::order::lemma_insert_by_at;
use crate::order::sort_stable;
use crate::store::active_cards;
use crate::store::archived_cards;
use crate::store::archived_desc;
use crate::store::archived_desc_rel;
use crate::store::card_dto_of;
use crate::store::card_dtos_of;
use crate::store::card_to_dto;
use crate::store::cards_view;
use crate::store::clone_card;
use crate::store::clone_opt;
use crate::store::created_desc;
use crate::store::created_desc_rel;
use crate::store::created_before;
use crate::store::archived_before;
use crate::store::has_card;
use crate::models::CardWithTodosDto;
use crate::models::TodoDto;
use crate::models::todo_dtos_view;
use crate::store::Todo;
use crate::store::TodoV;
use crate::store::card_idx;
use crate::store::clone_todo;
use crate::store::lemma_unique_card_idx;
use crate::store::todo_dtos_of;
use crate::store::todo_order;
use crate::store::todo_order_rel;
use crate::store::todo_before;
use crate::store::todos_of;
use crate::models::ArchiveResult;
use crate::models::OkResponse;
use crate::runtime::iso_days_ago;
use crate::store::lemma_todos_without_unique;
use crate::store::lemma_wf_update_same_id;
use crate::store::todo_to_dto;
use crate::store::todos_without;
use crate::store::todos_view;

verus! {

/// How many days old an active card must be before the sweep archives it.
pub const ARCHIVE_AGE_DAYS: u32 = 30;

/// The row `create_card` inserts.
pub open spec fn spec_new_card(
    id: Seq<char>,
    title: Option<Seq<char>>,
    micros: int,
    now: Seq<char>,
) -> CardV {
    CardV {
        id: id,
        title: title,
        amount: micros,
        locked: None,
        archived: false,
        created_at: now,
        updated_at: now,
        archived_at: None,
    }
}

/// The payload of a `created` change row: the requested title and the raw
/// amount string as the caller sent it.
pub open spec fn created_payload(title: Option<Seq<char>>, amount_raw: Seq<char>) -> PayloadDtoV {
    PayloadDtoV {
        title: title,
        amount: Some(amount_raw),
        todo_id: None,
        done: None,
        card_amount_change: None,
        reason: None,
    }
}

/// What a successful card creation does to the store: one new card row,
/// one new `created` change row, todos untouched, and the returned
/// transfer object showing the new row.
pub open spec fn create_card_post(
    pre: StoreView,
    post: StoreView,
    id: Seq<char>,
    log_id: Seq<char>,
    title: Option<Seq<char>>,
    amount_raw: Seq<char>,
    now: Seq<char>,
    dto: CardDtoV,
) -> bool {
    &&& valid_amount(amount_raw)
    &&& !has_card(pre.cards, id)
    &&& post.cards == pre.cards.push(spec_new_card(id, title, amount_micros(amount_raw), now))
    &&& post.todos == pre.todos
    &&& post.changes == pre.changes.push(
        ChangeV {
            id: log_id,
            card_id: id,
            kind: ChangeKind::Created,
            payload: created_payload(title, amount_raw),
            created_at: now,
        },
    )
    &&& dto == card_dto_of(spec_new_card(id, title, amount_micros(amount_raw), now))
}

/// The active listing: cards not archived, newest creation first, as
/// transfer objects.
pub open spec fn spec_list_cards(cards: Seq<CardV>) -> Seq<CardDtoV> {
    card_dtos_of(sort_stable(active_cards(cards), created_desc_rel()))
}

/// The archived listing: archived cards, newest archival first, as
/// transfer objects.
pub open spec fn spec_list_archived_cards(cards: Seq<CardV>) -> Seq<CardDtoV> {
    card_dtos_of(sort_stable(archived_cards(cards), archived_desc_rel()))
}

/// One card's todos in canonical order, as transfer objects.
pub open spec fn spec_card_todos(todos: Seq<TodoV>, cid: Seq<char>) -> Seq<TodoDtoV> {
    todo_dtos_of(sort_stable(todos_of(todos, cid), todo_order_rel()))
}

/// A payload that only tags the reason for a change.
pub open spec fn reason_payload(r: Seq<char>) -> PayloadDtoV {
    PayloadDtoV {
        title: None,
        amount: None,
        todo_id: None,
        done: None,
        card_amount_change: None,
        reason: Some(r),
    }
}

/// The card table after one card is archived at `now`.
pub open spec fn spec_archive_card(cards: Seq<CardV>, id: Seq<char>, now: Seq<char>) -> Seq<
    CardV,
> {
    let i = card_idx(cards, id);
    cards.update(
        i,
        CardV { archived: true, archived_at: Some(now), updated_at: now, ..cards[i] },
    )
}

/// The card table after one card is unarchived at `now`.
pub open spec fn spec_unarchive_card(cards: Seq<CardV>, id: Seq<char>, now: Seq<char>) -> Seq<
    CardV,
> {
    let i = card_idx(cards, id);
    cards.update(i, CardV { archived: false, archived_at: None, updated_at: now, ..cards[i] })
}

/// What archiving a card does: the flag and timestamps flip on that one
/// row, one `archived` change row tagged `user_archive` is appended, and
/// the refreshed card comes back.
pub open spec fn archive_card_post(
    pre: StoreView,
    post: StoreView,
    id: Seq<char>,
    log_id: Seq<char>,
    now: Seq<char>,
    dto: CardDtoV,
) -> bool {
    &&& has_card(pre.cards, id)
    &&& post.cards == spec_archive_card(pre.cards, id, now)
    &&& post.todos == pre.todos
    &&& post.changes == pre.changes.push(
        ChangeV {
            id: log_id,
            card_id: id,
            kind: ChangeKind::Archived,
            payload: reason_payload("user_archive"@),
            created_at: now,
        },
    )
    &&& dto == card_dto_of(post.cards[card_idx(pre.cards, id)])
}

/// What unarchiving a card does: the mirror image of archiving, tagged
/// `user_unarchive`.
pub open spec fn unarchive_card_post(
    pre: StoreView,
    post: StoreView,
    id: Seq<char>,
    log_id: Seq<char>,
    now: Seq<char>,
    dto: CardDtoV,
) -> bool {
    &&& has_card(pre.cards, id)
    &&& post.cards == spec_unarchive_card(pre.cards, id, now)
    &&& post.todos == pre.todos
    &&& post.changes == pre.changes.push(
        ChangeV {
            id: log_id,
            card_id: id,
            kind: ChangeKind::Unarchived,
            payload: reason_payload("user_unarchive"@),
            created_at: now,
        },
    )
    &&& dto == card_dto_of(post.cards[card_idx(pre.cards, id)])
}

/// How a card row looks after a partial update: supplied fields replace
/// the old ones, absent fields keep their prior values, and only the
/// update timestamp moves.
pub open spec fn spec_updated_card(
    c: CardV,
    title: Option<Seq<char>>,
    amount_raw: Option<Seq<char>>,
    now: Seq<char>,
) -> CardV {
    CardV {
        title: if title is Some {
            title
        } else {
            c.title
        },
        amount: match amount_raw {
            Some(a) => amount_micros(a),
            None => c.amount,
        },
        updated_at: now,
        ..c
    }
}

/// The payload of an `updated` change row: the effective title and the
/// effective amount, rendered to six decimal places.
pub open spec fn updated_payload(title: Option<Seq<char>>, micros: int) -> PayloadDtoV {
    PayloadDtoV {
        title: title,
        amount: Some(crate::amount::amount_string(micros)),
        todo_id: None,
        done: None,
        card_amount_change: None,
        reason: None,
    }
}

/// What a successful partial update does to the store.
pub open spec fn update_card_post(
    pre: StoreView,
    post: StoreView,
    id: Seq<char>,
    log_id: Seq<char>,
    title: Option<Seq<char>>,
    amount_raw: Option<Seq<char>>,
    now: Seq<char>,
    dto: CardDtoV,
) -> bool {
    let i = card_idx(pre.cards, id);
    let nc = spec_updated_card(pre.cards[i], title, amount_raw, now);
    &&& has_card(pre.cards, id)
    &&& (amount_raw matches Some(a) ==> valid_amount(a))
    &&& post.cards == pre.cards.update(i, nc)
    &&& post.todos == pre.todos
    &&& post.changes == pre.changes.push(
        ChangeV {
            id: log_id,
            card_id: id,
            kind: ChangeKind::Updated,
            payload: updated_payload(nc.title, nc.amount),
            created_at: now,
        },
    )
    &&& dto == card_dto_of(nc)
}

/// A card the archival sweep takes: still active and created at or
/// before the cutoff.
pub open spec fn sweep_eligible(c: CardV, cutoff: Seq<char>) -> bool {
    !c.archived && crate::text::lex_le(c.created_at, cutoff)
}

/// One card as the sweep leaves it.
pub open spec fn sweep_card(c: CardV, cutoff: Seq<char>, now: Seq<char>) -> CardV {
    if sweep_eligible(c, cutoff) {
        CardV { archived: true, archived_at: Some(now), updated_at: now, ..c }
    } else {
        c
    }
}

/// The whole card table as the sweep leaves it.
pub open spec fn spec_archive_sweep(cards: Seq<CardV>, cutoff: Seq<char>, now: Seq<char>) -> Seq<
    CardV,
> {
    Seq::new(cards.len(), |i: int| sweep_card(cards[i], cutoff, now))
}

/// The cards the sweep takes, in table order.
pub open spec fn eligible_cards(cards: Seq<CardV>, cutoff: Seq<char>) -> Seq<CardV>
    decreases cards.len(),
{
    if cards.len() == 0 {
        Seq::empty()
    } else {
        eligible_cards(cards.drop_last(), cutoff) + if sweep_eligible(cards.last(), cutoff) {
            seq![cards.last()]
        } else {
            Seq::empty()
        }
    }
}

/// The sweep appends one `archived` change row per card it takes, tagged
/// `auto_archive_30_days`, in table order, all at the same timestamp.
pub open spec fn sweep_log_post(
    pre_changes: Seq<ChangeV>,
    post_changes: Seq<ChangeV>,
    el: Seq<CardV>,
    now: Seq<char>,
) -> bool {
    &&& post_changes.len() == pre_changes.len() + el.len()
    &&& post_changes.take(pre_changes.len() as int) == pre_changes
    &&& forall|k: int|
        0 <= k < el.len() ==> {
            let row = #[trigger] post_changes[pre_changes.len() + k];
            row.card_id == el[k].id && row.kind == ChangeKind::Archived && row.payload
                == reason_payload("auto_archive_30_days"@) && row.created_at == now
        }
}

/// What one archival sweep does to the store.
pub open spec fn archive_sweep_post(
    pre: StoreView,
    post: StoreView,
    cutoff: Seq<char>,
    now: Seq<char>,
    count: int,
) -> bool {
    &&& post.cards == spec_archive_sweep(pre.cards, cutoff, now)
    &&& post.todos == pre.todos
    &&& sweep_log_post(pre.changes, post.changes, eligible_cards(pre.cards, cutoff), now)
    &&& count == eligible_cards(pre.cards, cutoff).len()
}

/// How far a new todo sinks into a row list in canonical order.
fn scan_pos_todo(rows: &Vec<Todo>, t: &Todo) -> (j: usize)
    ensures
        j <= rows@.len(),
        forall|m: int| 0 <= m < j ==> todo_order(#[trigger] rows@[m]@, t@),
        j == rows@.len() || !todo_order(rows@[j as int]@, t@),
{
    let mut j: usize = 0;
    while j < rows.len() && todo_before(&rows[j], t)
        invariant
            j <= rows@.len(),
            forall|m: int| 0 <= m < j ==> todo_order(#[trigger] rows@[m]@, t@),
        decreases rows@.len() - j,
    {
        j = j + 1;
    }
    j
}

/// How far a new card sinks into a row list ordered by creation time
/// descending.
fn scan_pos_created(rows: &Vec<Card>, c: &Card) -> (j: usize)
    ensures
        j <= rows@.len(),
        forall|m: int| 0 <= m < j ==> created_desc(#[trigger] rows@[m]@, c@),
        j == rows@.len() || !created_desc(rows@[j as int]@, c@),
{
    let mut j: usize = 0;
    while j < rows.len() && created_before(&rows[j], c)
        invariant
            j <= rows@.len(),
            forall|m: int| 0 <= m < j ==> created_desc(#[trigger] rows@[m]@, c@),
        decreases rows@.len() - j,
    {
        j = j + 1;
    }
    j
}

/// How far a new card sinks into a row list ordered by archival time
/// descending.
fn scan_pos_archived(rows: &Vec<Card>, c: &Card) -> (j: usize)
    requires
        c@.archived_at is Some,
        forall|m: int| 0 <= m < rows@.len() ==> (#[trigger] rows@[m])@.archived_at is Some,
    ensures
        j <= rows@.len(),
        forall|m: int| 0 <= m < j ==> archived_desc(#[trigger] rows@[m]@, c@),
        j == rows@.len() || !archived_desc(rows@[j as int]@, c@),
{
    let mut j: usize = 0;
    while j < rows.len() && archived_before(&rows[j], c)
        invariant
            j <= rows@.len(),
            c@.archived_at is Some,
            forall|m: int| 0 <= m < rows@.len() ==> (#[trigger] rows@[m])@.archived_at is Some,
            forall|m: int| 0 <= m < j ==> archived_desc(#[trigger] rows@[m]@, c@),
        decreases rows@.len() - j,
    {
        j = j + 1;
    }
    j
}

impl Store {
    /// Gathers one side of the archived flag, ordered for display, by
    /// stable insertion.
    fn collect_cards_sorted(&self, archived: bool) -> (rows: Vec<Card>)
        requires
            self@.wf(),
        ensures
            cards_view(rows@) == if archived {
                sort_stable(archived_cards(self@.cards), archived_desc_rel())
            } else {
                sort_stable(active_cards(self@.cards), created_desc_rel())
            },
    {
        let n = self.cards.len();
        let mut rows: Vec<Card> = Vec::new();
        let mut i: usize = 0;
        proof {
            assert(self@.cards.take(0) =~= Seq::<CardV>::empty());
            assert(cards_view(rows@) =~= Seq::<CardV>::empty());
        }
        while i < n
            invariant
                i <= n,
                n == self.cards.len(),
                self@.wf(),
                forall|m: int| 0 <= m < rows@.len() ==> (#[trigger] rows@[m])@.archived == archived,
                forall|m: int|
                    0 <= m < rows@.len() ==> ((#[trigger] rows@[m])@.archived_at is Some <==> archived),
                cards_view(rows@) == if archived {
                    sort_stable(archived_cards(self@.cards.take(i as int)), archived_desc_rel())
                } else {
                    sort_stable(active_cards(self@.cards.take(i as int)), created_desc_rel())
                },
            decreases n - i,
        {
            let c = &self.cards[i];
            let ghost pre = self@.cards.take(i as int);
            let ghost post = self@.cards.take(i as int + 1);
            let ghost cv = self@.cards[i as int];
            proof {
                assert(post.drop_last() =~= pre);
                assert(post.last() == cv);
                assert(cv.archived <==> cv.archived_at is Some);
            }
            if c.archived == archived {
                let j: usize = if archived {
                    scan_pos_archived(&rows, c)
                } else {
                    scan_pos_created(&rows, c)
                };
                let ghost old_rows = rows@;
                let cc = clone_card(c);
                rows.insert(j, cc);
                proof {
                    let f = if archived {
                        archived_desc_rel()
                    } else {
                        created_desc_rel()
                    };
                    let flt = if archived {
                        archived_cards(pre)
                    } else {
                        active_cards(pre)
                    };
                    let flt_post = if archived {
                        archived_cards(post)
                    } else {
                        active_cards(post)
                    };
                    let sorted_pre = cards_view(old_rows);
                    assert(sorted_pre == sort_stable(flt, f));
                    assert(flt_post =~= flt.push(cv));
                    assert(flt_post.drop_last() =~= flt);
                    assert(sort_stable(flt_post, f) == insert_by(sorted_pre, cv, f));
                    assert forall|m: int| 0 <= m < j implies f(#[trigger] sorted_pre[m], cv) by {
                        assert(sorted_pre[m] == old_rows[m]@);
                    }
                    if j < old_rows.len() {
                        assert(!f(sorted_pre[j as int], cv)) by {
                            assert(sorted_pre[j as int] == old_rows[j as int]@);
                        }
                    }
                    lemma_insert_by_at(sorted_pre, cv, f, j as int);
                    assert(cards_view(rows@) =~= sorted_pre.take(j as int) + seq![cv]
                        + sorted_pre.skip(j as int)) by {
                        assert(rows@ == old_rows.insert(j as int, cc));
                        assert forall|m: int| 0 <= m < rows@.len() implies #[trigger] cards_view(
                            rows@,
                        )[m] == (sorted_pre.take(j as int) + seq![cv] + sorted_pre.skip(
                            j as int,
                        ))[m] by {
                            if m < j {
                                assert(rows@[m] == old_rows[m]);
                            } else if m == j {
                                assert(rows@[m] == cc);
                            } else {
                                assert(rows@[m] == old_rows[m - 1]);
                            }
                        }
                    }
                    assert(cards_view(rows@) == sort_stable(flt_post, f));
                }
            } else {
                proof {
                    if archived {
                        assert(archived_cards(post) =~= archived_cards(pre));
                    } else {
                        assert(active_cards(post) =~= active_cards(pre));
                    }
                }
            }
            i = i + 1;
        }
        proof {
            assert(self@.cards.take(n as int) =~= self@.cards);
        }
        rows
    }

    /// Renders sorted card rows as transfer objects.
    fn cards_to_dtos(rows: &Vec<Card>) -> (out: Vec<CardDto>)
        ensures
            card_dtos_view(out@) == card_dtos_of(cards_view(rows@)),
    {
        let mut out: Vec<CardDto> = Vec::new();
        proof {
            assert(card_dtos_view(out@) =~= card_dtos_of(cards_view(rows@.take(0))));
        }
        let mut k: usize = 0;
        while k < rows.len()
            invariant
                k <= rows@.len(),
                card_dtos_view(out@) == card_dtos_of(cards_view(rows@.take(k as int))),
            decreases rows@.len() - k,
        {
            let d = card_to_dto(&rows[k]);
            let ghost old_out = out@;
            out.push(d);
            proof {
                assert(out@ == old_out.push(d));
                assert(card_dtos_view(old_out).len() == old_out.len());
                assert(cards_view(rows@.take(k as int)).len() == k);
                assert(card_dtos_of(cards_view(rows@.take(k as int))).len() == k);
                assert(old_out.len() == k);
                assert(card_dtos_view(out@) =~= card_dtos_of(
                    cards_view(rows@.take(k as int + 1)),
                )) by {
                    assert forall|m: int| 0 <= m < out@.len() implies #[trigger] card_dtos_view(
                        out@,
                    )[m] == card_dtos_of(cards_view(rows@.take(k as int + 1)))[m] by {
                        if m < k {
                            assert(out@[m] == old_out[m]);
                            assert(rows@.take(k as int + 1)[m] == rows@[m]);
                            assert(rows@.take(k as int)[m] == rows@[m]);
                            assert(card_dtos_view(old_out)[m] == card_dtos_of(
                                cards_view(rows@.take(k as int)),
                            )[m]);
                        } else {
                            assert(out@[m] == d);
                            assert(rows@.take(k as int + 1)[m] == rows@[m]);
                        }
                    }
                }
            }
            k = k + 1;
        }
        proof {
            assert(rows@.take(rows@.len() as int) =~= rows@);
        }
        out
    }

    /// All cards with `archived` false, ordered by creation time
    /// descending, amounts rendered to six decimal places.
    pub fn list_cards(&self) -> (r: Result<Vec<CardDto>, AppError>)
        requires
            self@.wf(),
        ensures
            match r {
                Ok(list) => card_dtos_view(list@) == spec_list_cards(self@.cards),
                Err(_) => false,
            },
    {
        let rows = self.collect_cards_sorted(false);
        Ok(Self::cards_to_dtos(&rows))
    }

    /// All cards with `archived` true, ordered by archival time
    /// descending, amounts rendered to six decimal places.
    pub fn list_archived_cards(&self) -> (r: Result<Vec<CardDto>, AppError>)
        requires
            self@.wf(),
        ensures
            match r {
                Ok(list) => card_dtos_view(list@) == spec_list_archived_cards(self@.cards),
                Err(_) => false,
            },
    {
        let rows = self.collect_cards_sorted(true);
        Ok(Self::cards_to_dtos(&rows))
    }

    /// Gathers one card's todos in canonical order by stable insertion.
    fn collect_todos_sorted(&self, cid: &String) -> (rows: Vec<Todo>)
        ensures
            todos_view(rows@) == sort_stable(todos_of(self@.todos, cid@), todo_order_rel()),
    {
        let n = self.todos.len();
        let mut rows: Vec<Todo> = Vec::new();
        let mut i: usize = 0;
        proof {
            assert(self@.todos.take(0) =~= Seq::<TodoV>::empty());
            assert(todos_view(rows@) =~= Seq::<TodoV>::empty());
        }
        while i < n
            invariant
                i <= n,
                n == self.todos.len(),
                todos_view(rows@) == sort_stable(
                    todos_of(self@.todos.take(i as int), cid@),
                    todo_order_rel(),
                ),
            decreases n - i,
        {
            let t = &self.todos[i];
            let ghost pre = self@.todos.take(i as int);
            let ghost post = self@.todos.take(i as int + 1);
            let ghost tv = self@.todos[i as int];
            proof {
                assert(post.drop_last() =~= pre);
                assert(post.last() == tv);
            }
            if t.card_id == *cid {
                let j = scan_pos_todo(&rows, t);
                let ghost old_rows = rows@;
                let tt = clone_todo(t);
                rows.insert(j, tt);
                proof {
                    let f = todo_order_rel();
                    let flt = todos_of(pre, cid@);
                    let flt_post = todos_of(post, cid@);
                    let sorted_pre = todos_view(old_rows);
                    assert(flt_post =~= flt.push(tv));
                    assert(flt_post.drop_last() =~= flt);
                    assert(sort_stable(flt_post, f) == insert_by(sorted_pre, tv, f));
                    assert forall|m: int| 0 <= m < j implies f(#[trigger] sorted_pre[m], tv) by {
                        assert(sorted_pre[m] == old_rows[m]@);
                    }
                    if j < old_rows.len() {
                        assert(!f(sorted_pre[j as int], tv)) by {
                            assert(sorted_pre[j as int] == old_rows[j as int]@);
                        }
                    }
                    lemma_insert_by_at(sorted_pre, tv, f, j as int);
                    assert(todos_view(rows@) =~= sorted_pre.take(j as int) + seq![tv]
                        + sorted_pre.skip(j as int)) by {
                        assert(rows@ == old_rows.insert(j as int, tt));
                        assert forall|m: int| 0 <= m < rows@.len() implies #[trigger] todos_view(
                            rows@,
                        )[m] == (sorted_pre.take(j as int) + seq![tv] + sorted_pre.skip(
                            j as int,
                        ))[m] by {
                            if m < j {
                                assert(rows@[m] == old_rows[m]);
                            } else if m == j {
                                assert(rows@[m] == tt);
                            } else {
                                assert(rows@[m] == old_rows[m - 1]);
                            }
                        }
                    }
                    assert(todos_view(rows@) == sort_stable(flt_post, f));
                }
            } else {
                proof {
                    assert(todos_of(post, cid@) =~= todos_of(pre, cid@));
                }
            }
            i = i + 1;
        }
        proof {
            assert(self@.todos.take(n as int) =~= self@.todos);
        }
        rows
    }

    /// Renders sorted todo rows as transfer objects.
    fn todos_to_dtos(rows: &Vec<Todo>) -> (out: Vec<TodoDto>)
        ensures
            todo_dtos_view(out@) == todo_dtos_of(todos_view(rows@)),
    {
        let mut out: Vec<TodoDto> = Vec::new();
        proof {
            assert(todo_dtos_view(out@) =~= todo_dtos_of(todos_view(rows@.take(0))));
        }
        let mut k: usize = 0;
        while k < rows.len()
            invariant
                k <= rows@.len(),
                todo_dtos_view(out@) == todo_dtos_of(todos_view(rows@.take(k as int))),
            decreases rows@.len() - k,
        {
            let d = todo_to_dto(&rows[k]);
            let ghost old_out = out@;
            out.push(d);
            proof {
                assert(out@ == old_out.push(d));
                assert(todo_dtos_view(old_out).len() == old_out.len());
                assert(todos_view(rows@.take(k as int)).len() == k);
                assert(todo_dtos_of(todos_view(rows@.take(k as int))).len() == k);
                assert(old_out.len() == k);
                assert(todo_dtos_view(out@) =~= todo_dtos_of(
                    todos_view(rows@.take(k as int + 1)),
                )) by {
                    assert forall|m: int| 0 <= m < out@.len() implies #[trigger] todo_dtos_view(
                        out@,
                    )[m] == todo_dtos_of(todos_view(rows@.take(k as int + 1)))[m] by {
                        if m < k {
                            assert(out@[m] == old_out[m]);
                            assert(rows@.take(k as int + 1)[m] == rows@[m]);
                            assert(rows@.take(k as int)[m] == rows@[m]);
                            assert(todo_dtos_view(old_out)[m] == todo_dtos_of(
                                todos_view(rows@.take(k as int)),
                            )[m]);
                        } else {
                            assert(out@[m] == d);
                            assert(rows@.take(k as int + 1)[m] == rows@[m]);
                        }
                    }
                }
            }
            k = k + 1;
        }
        proof {
            assert(rows@.take(rows@.len() as int) =~= rows@);
        }
        out
    }

    /// One card by id, with its todos in canonical order (order index
    /// ascending, then creation time). `CardNotFound` when the id matches
    /// no card.
    pub fn get_card(&self, card_id: String) -> (r: Result<CardWithTodosDto, AppError>)
        requires
            self@.wf(),
        ensures
            match r {
                Ok(dto) => {
                    &&& has_card(self@.cards, card_id@)
                    &&& dto@.card == card_dto_of(
                        self@.cards[card_idx(self@.cards, card_id@)],
                    )
                    &&& dto@.todos == spec_card_todos(self@.todos, card_id@)
                },
                Err(e) => match e {
                    AppError::CardNotFound(m) => m@ == card_id@ && !has_card(
                        self@.cards,
                        card_id@,
                    ),
                    _ => false,
                },
            },
    {
        let i = match self.find_card(&card_id) {
            Some(i) => i,
            None => {
                return Err(AppError::CardNotFound(card_id));
            },
        };
        proof {
            lemma_unique_card_idx(self@.cards, card_id@, i as int);
        }
        let rows = self.collect_todos_sorted(&card_id);
        let tdtos = Self::todos_to_dtos(&rows);
        let c = &self.cards[i];
        let dto = CardWithTodosDto {
            id: c.id.clone(),
            title: clone_opt(&c.title),
            amount: format_amount(c.amount_micros),
            locked_amount: match &c.locked_micros {
                Some(l) => Some(format_amount(*l)),
                None => None,
            },
            archived: c.archived,
            created_at: c.created_at.clone(),
            updated_at: c.updated_at.clone(),
            archived_at: clone_opt(&c.archived_at),
            todos: tdtos,
        };
        Ok(dto)
    }

    /// Creates a card from caller-chosen row id, change-row id and
    /// timestamp. Rejects a malformed amount with `InvalidAmount`, and a
    /// duplicate id or a full table with `Database`; on any error the
    /// store is unchanged.
    pub fn create_card_at(
        &mut self,
        id: String,
        log_id: String,
        title: Option<String>,
        amount: String,
        now: String,
    ) -> (r: Result<CardDto, AppError>)
        requires
            old(self)@.wf(),
        ensures
            final(self)@.wf(),
            match r {
                Ok(dto) => create_card_post(
                    old(self)@,
                    final(self)@,
                    id@,
                    log_id@,
                    view_opt(title),
                    amount@,
                    now@,
                    dto@,
                ),
                Err(e) => final(self)@ == old(self)@ && match e {
                    AppError::InvalidAmount(m) => m@ == amount@ && !valid_amount(amount@),
                    AppError::Database(_) => valid_amount(amount@) && (has_card(
                        old(self)@.cards,
                        id@,
                    ) || old(self)@.cards.len() >= 0x7fff_ffff),
                    _ => false,
                },
            },
    {
        let micros = match parse_amount(amount.as_str()) {
            Some(v) => v,
            None => {
                return Err(AppError::InvalidAmount(amount));
            },
        };
        if self.cards.len() >= 0x7fff_ffff {
            return Err(AppError::Database(String::from_str("card table is full")));
        }
        if self.find_card(&id).is_some() {
            return Err(AppError::Database(String::from_str("duplicate card id")));
        }
        let card = Card {
            id: id.clone(),
            title: clone_opt(&title),
            amount_micros: micros,
            locked_micros: None,
            archived: false,
            created_at: now.clone(),
            updated_at: now.clone(),
            archived_at: None,
        };
        let ghost pre = self@;
        self.cards.push(card);
        let row = ChangeRow {
            id: log_id,
            card_id: id.clone(),
            kind: ChangeKind::Created,
            payload: PayloadDto {
                title: clone_opt(&title),
                amount: Some(amount.clone()),
                todo_id: None,
                done: None,
                card_amount_change: None,
                reason: None,
            },
            created_at: now.clone(),
        };
        self.changes.push(row);
        let dto = CardDto {
            id: id,
            title: title,
            amount: format_amount(micros),
            locked_amount: None,
            archived: false,
            created_at: now.clone(),
            updated_at: now,
            archived_at: None,
        };
        proof {
            let cv = spec_new_card(id@, view_opt(title), amount_micros(amount@), now@);
            assert(self@.cards =~= pre.cards.push(cv));
            assert(self@.todos =~= pre.todos);
            assert(self@.changes =~= pre.changes.push(
                ChangeV {
                    id: log_id@,
                    card_id: id@,
                    kind: ChangeKind::Created,
                    payload: created_payload(view_opt(title), amount@),
                    created_at: now@,
                },
            ));
            assert(dto@ == card_dto_of(cv));
            assert(self@.wf()) by {
                assert forall|i: int, j: int| 0 <= i < j < self@.cards.len() implies #[trigger] self@.cards[i].id != #[trigger] self@.cards[j].id by {
                    if j == self@.cards.len() - 1 {
                        assert(self@.cards[i] == pre.cards[i]);
                    }
                }
                assert forall|i: int| 0 <= i < self@.todos.len() implies has_card(
                    self@.cards,
                    #[trigger] self@.todos[i].card_id,
                ) by {
                    assert(has_card(pre.cards, pre.todos[i].card_id));
                    let w = crate::store::card_idx(pre.cards, pre.todos[i].card_id);
                    assert(self@.cards[w].id == pre.todos[i].card_id);
                }
            }
        }
        Ok(dto)
    }

    /// Creates a card with a fresh id at the current time, recording the
    /// requested title and raw amount string in the change log.
    pub fn create_card(&mut self, title: Option<String>, amount: String) -> (r: Result<
        CardDto,
        AppError,
    >)
        requires
            old(self)@.wf(),
        ensures
            final(self)@.wf(),
            match r {
                Ok(dto) => exists|id: Seq<char>, log_id: Seq<char>, now: Seq<char>|
                    #[trigger] create_card_post(
                        old(self)@,
                        final(self)@,
                        id,
                        log_id,
                        view_opt(title),
                        amount@,
                        now,
                        dto@,
                    ),
                Err(e) => final(self)@ == old(self)@ && match e {
                    AppError::InvalidAmount(m) => m@ == amount@ && !valid_amount(amount@),
                    // A fresh random id can collide only with an existing
                    // row: on an empty (and not full) table a valid amount
                    // must succeed.
                    AppError::Database(_) => valid_amount(amount@) && old(self)@.cards.len() > 0,
                    _ => false,
                },
            },
    {
        let id = generate_id();
        let log_id = generate_id();
        let now = now_iso();
        let ghost idv = id@;
        let ghost logv = log_id@;
        let ghost nowv = now@;
        let r = self.create_card_at(id, log_id, title, amount, now);
        proof {
            if r is Ok {
                assert(create_card_post(
                    old(self)@,
                    self@,
                    idv,
                    logv,
                    view_opt(title),
                    amount@,
                    nowv,
                    r->Ok_0@,
                ));
            }
            if r matches Err(AppError::Database(_)) {
                if has_card(old(self)@.cards, idv) {
                    let w = card_idx(old(self)@.cards, idv);
                    assert(0 <= w < old(self)@.cards.len());
                }
            }
        }
        r
    }

    /// Flips one card's archived state in place.
    fn set_archived(&mut self, i: usize, log_id: String, now: String, to_archived: bool)
        requires
            old(self)@.wf(),
            i < old(self)@.cards.len(),
        ensures
            final(self)@.wf(),
            final(self)@.cards == if to_archived {
                spec_archive_card(old(self)@.cards, old(self)@.cards[i as int].id, now@)
            } else {
                spec_unarchive_card(old(self)@.cards, old(self)@.cards[i as int].id, now@)
            },
            final(self)@.todos == old(self)@.todos,
            final(self)@.changes == old(self)@.changes.push(
                ChangeV {
                    id: log_id@,
                    card_id: old(self)@.cards[i as int].id,
                    kind: if to_archived {
                        ChangeKind::Archived
                    } else {
                        ChangeKind::Unarchived
                    },
                    payload: reason_payload(
                        if to_archived {
                            "user_archive"@
                        } else {
                            "user_unarchive"@
                        },
                    ),
                    created_at: now@,
                },
            ),
    {
        let ghost pre = self@;
        let c = &self.cards[i];
        let newc = Card {
            id: c.id.clone(),
            title: clone_opt(&c.title),
            amount_micros: c.amount_micros,
            locked_micros: c.locked_micros,
            archived: to_archived,
            created_at: c.created_at.clone(),
            updated_at: now.clone(),
            archived_at: if to_archived {
                Some(now.clone())
            } else {
                None
            },
        };
        let cid = c.id.clone();
        let reason = if to_archived {
            proof {
                reveal_strlit("user_archive");
            }
            String::from_str("user_archive")
        } else {
            proof {
                reveal_strlit("user_unarchive");
            }
            String::from_str("user_unarchive")
        };
        self.cards[i] = newc;
        self.changes.push(
            ChangeRow {
                id: log_id,
                card_id: cid,
                kind: if to_archived {
                    ChangeKind::Archived
                } else {
                    ChangeKind::Unarchived
                },
                payload: PayloadDto {
                    title: None,
                    amount: None,
                    todo_id: None,
                    done: None,
                    card_amount_change: None,
                    reason: Some(reason),
                },
                created_at: now,
            },
        );
        proof {
            let id = pre.cards[i as int].id;
            lemma_unique_card_idx(pre.cards, id, i as int);
            let cv = if to_archived {
                CardV {
                    archived: true,
                    archived_at: Some(now@),
                    updated_at: now@,
                    ..pre.cards[i as int]
                }
            } else {
                CardV { archived: false, archived_at: None, updated_at: now@, ..pre.cards[
                    i as int
                ] }
            };
            assert(self@.cards =~= pre.cards.update(i as int, cv));
            assert(self@.todos =~= pre.todos);
            assert(self@.changes =~= pre.changes.push(
                ChangeV {
                    id: log_id@,
                    card_id: id,
                    kind: if to_archived {
                        ChangeKind::Archived
                    } else {
                        ChangeKind::Unarchived
                    },
                    payload: reason_payload(
                        if to_archived {
                            "user_archive"@
                        } else {
                            "user_unarchive"@
                        },
                    ),
                    created_at: now@,
                },
            ));
            lemma_wf_update_same_id(pre, self@, i as int, cv);
        }
    }

    /// Marks a card archived, stamps the archival time, logs an
    /// `archived` change tagged `user_archive`, and returns the refreshed
    /// card. `CardNotFound` when the id matches no card; the store is
    /// then unchanged.
    pub fn archive_card_at(&mut self, card_id: String, log_id: String, now: String) -> (r: Result<
        CardDto,
        AppError,
    >)
        requires
            old(self)@.wf(),
        ensures
            final(self)@.wf(),
            match r {
                Ok(dto) => archive_card_post(
                    old(self)@,
                    final(self)@,
                    card_id@,
                    log_id@,
                    now@,
                    dto@,
                ),
                Err(e) => final(self)@ == old(self)@ && match e {
                    AppError::CardNotFound(m) => m@ == card_id@ && !has_card(
                        old(self)@.cards,
                        card_id@,
                    ),
                    _ => false,
                },
            },
    {
        let i = match self.find_card(&card_id) {
            Some(i) => i,
            None => {
                return Err(AppError::CardNotFound(card_id));
            },
        };
        proof {
            lemma_unique_card_idx(self@.cards, card_id@, i as int);
        }
        self.set_archived(i, log_id, now, true);
        let dto = card_to_dto(&self.cards[i]);
        Ok(dto)
    }

    /// Marks a card active again, clears the archival time, logs an
    /// `unarchived` change tagged `user_unarchive`, and returns the
    /// refreshed card. `CardNotFound` when the id matches no card; the
    /// store is then unchanged.
    pub fn unarchive_card_at(&mut self, card_id: String, log_id: String, now: String) -> (r:
        Result<CardDto, AppError>)
        requires
            old(self)@.wf(),
        ensures
            final(self)@.wf(),
            match r {
                Ok(dto) => unarchive_card_post(
                    old(self)@,
                    final(self)@,
                    card_id@,
                    log_id@,
                    now@,
                    dto@,
                ),
                Err(e) => final(self)@ == old(self)@ && match e {
                    AppError::CardNotFound(m) => m@ == card_id@ && !has_card(
                        old(self)@.cards,
                        card_id@,
                    ),
                    _ => false,
                },
            },
    {
        let i = match self.find_card(&card_id) {
            Some(i) => i,
            None => {
                return Err(AppError::CardNotFound(card_id));
            },
        };
        proof {
            lemma_unique_card_idx(self@.cards, card_id@, i as int);
        }
        self.set_archived(i, log_id, now, false);
        let dto = card_to_dto(&self.cards[i]);
        Ok(dto)
    }

    /// Archives a card with a fresh change-row id at the current time.
    pub fn archive_card(&mut self, card_id: String) -> (r: Result<CardDto, AppError>)
        requires
            old(self)@.wf(),
        ensures
            final(self)@.wf(),
            match r {
                Ok(dto) => exists|log_id: Seq<char>, now: Seq<char>|
                    #[trigger] archive_card_post(
                        old(self)@,
                        final(self)@,
                        card_id@,
                        log_id,
                        now,
                        dto@,
                    ),
                Err(e) => final(self)@ == old(self)@ && match e {
                    AppError::CardNotFound(m) => m@ == card_id@ && !has_card(
                        old(self)@.cards,
                        card_id@,
                    ),
                    _ => false,
                },
            },
    {
        let log_id = generate_id();
        let now = now_iso();
        let ghost logv = log_id@;
        let ghost nowv = now@;
        let r = self.archive_card_at(card_id, log_id, now);
        proof {
            if r is Ok {
                assert(archive_card_post(old(self)@, self@, card_id@, logv, nowv, r->Ok_0@));
            }
        }
        r
    }

    /// Unarchives a card with a fresh change-row id at the current time.
    pub fn unarchive_card(&mut self, card_id: String) -> (r: Result<CardDto, AppError>)
        requires
            old(self)@.wf(),
        ensures
            final(self)@.wf(),
            match r {
                Ok(dto) => exists|log_id: Seq<char>, now: Seq<char>|
                    #[trigger] unarchive_card_post(
                        old(self)@,
                        final(self)@,
                        card_id@,
                        log_id,
                        now,
                        dto@,
                    ),
                Err(e) => final(self)@ == old(self)@ && match e {
                    AppError::CardNotFound(m) => m@ == card_id@ && !has_card(
                        old(self)@.cards,
                        card_id@,
                    ),
                    _ => false,
                },
            },
    {
        let log_id = generate_id();
        let now = now_iso();
        let ghost logv = log_id@;
        let ghost nowv = now@;
        let r = self.unarchive_card_at(card_id, log_id, now);
        proof {
            if r is Ok {
                assert(unarchive_card_post(old(self)@, self@, card_id@, logv, nowv, r->Ok_0@));
            }
        }
        r
    }

    /// Applies a partial update from caller-chosen change-row id and
    /// timestamp: supplied fields replace the old values, absent fields
    /// keep them. `CardNotFound` when the id matches no card, then
    /// `InvalidAmount` when a supplied amount does not parse; on any
    /// error the store is unchanged.
    pub fn update_card_at(
        &mut self,
        card_id: String,
        log_id: String,
        title: Option<String>,
        amount: Option<String>,
        now: String,
    ) -> (r: Result<CardDto, AppError>)
        requires
            old(self)@.wf(),
        ensures
            final(self)@.wf(),
            match r {
                Ok(dto) => update_card_post(
                    old(self)@,
                    final(self)@,
                    card_id@,
                    log_id@,
                    view_opt(title),
                    view_opt(amount),
                    now@,
                    dto@,
                ),
                Err(e) => final(self)@ == old(self)@ && match e {
                    AppError::CardNotFound(m) => m@ == card_id@ && !has_card(
                        old(self)@.cards,
                        card_id@,
                    ),
                    AppError::InvalidAmount(m) => has_card(old(self)@.cards, card_id@) && (
                    amount matches Some(a) && m@ == a@ && !valid_amount(a@)),
                    _ => false,
                },
            },
    {
        let i = match self.find_card(&card_id) {
            Some(i) => i,
            None => {
                return Err(AppError::CardNotFound(card_id));
            },
        };
        proof {
            lemma_unique_card_idx(self@.cards, card_id@, i as int);
        }
        let micros_opt: Option<i64> = match &amount {
            Some(a) => match parse_amount(a.as_str()) {
                Some(v) => Some(v),
                None => {
                    return Err(AppError::InvalidAmount(a.clone()));
                },
            },
            None => None,
        };
        let ghost pre = self@;
        let c = &self.cards[i];
        let nt: Option<String> = match title {
            Some(tt) => Some(tt),
            None => clone_opt(&c.title),
        };
        let na: i64 = match micros_opt {
            Some(v) => v,
            None => c.amount_micros,
        };
        let newc = Card {
            id: c.id.clone(),
            title: clone_opt(&nt),
            amount_micros: na,
            locked_micros: c.locked_micros,
            archived: c.archived,
            created_at: c.created_at.clone(),
            updated_at: now.clone(),
            archived_at: clone_opt(&c.archived_at),
        };
        self.cards[i] = newc;
        self.changes.push(
            ChangeRow {
                id: log_id,
                card_id: card_id,
                kind: ChangeKind::Updated,
                payload: PayloadDto {
                    title: nt,
                    amount: Some(format_amount(na)),
                    todo_id: None,
                    done: None,
                    card_amount_change: None,
                    reason: None,
                },
                created_at: now,
            },
        );
        let dto = card_to_dto(&self.cards[i]);
        proof {
            let nc = spec_updated_card(
                pre.cards[i as int],
                view_opt(title),
                view_opt(amount),
                now@,
            );
            assert(self@.cards =~= pre.cards.update(i as int, nc));
            assert(self@.todos =~= pre.todos);
            assert(self@.changes =~= pre.changes.push(
                ChangeV {
                    id: log_id@,
                    card_id: card_id@,
                    kind: ChangeKind::Updated,
                    payload: updated_payload(nc.title, nc.amount),
                    created_at: now@,
                },
            ));
            lemma_wf_update_same_id(pre, self@, i as int, nc);
        }
        Ok(dto)
    }

    /// Applies a partial update with a fresh change-row id at the
    /// current time.
    pub fn update_card(
        &mut self,
        card_id: String,
        title: Option<String>,
        amount: Option<String>,
    ) -> (r: Result<CardDto, AppError>)
        requires
            old(self)@.wf(),
        ensures
            final(self)@.wf(),
            match r {
                Ok(dto) => exists|log_id: Seq<char>, now: Seq<char>|
                    #[trigger] update_card_post(
                        old(self)@,
                        final(self)@,
                        card_id@,
                        log_id,
                        view_opt(title),
                        view_opt(amount),
                        now,
                        dto@,
                    ),
                Err(e) => final(self)@ == old(self)@ && match e {
                    AppError::CardNotFound(m) => m@ == card_id@ && !has_card(
                        old(self)@.cards,
                        card_id@,
                    ),
                    AppError::InvalidAmount(m) => has_card(old(self)@.cards, card_id@) && (
                    amount matches Some(a) && m@ == a@ && !valid_amount(a@)),
                    _ => false,
                },
            },
    {
        let log_id = generate_id();
        let now = now_iso();
        let ghost logv = log_id@;
        let ghost nowv = now@;
        let r = self.update_card_at(card_id, log_id, title, amount, now);
        proof {
            if r is Ok {
                assert(update_card_post(
                    old(self)@,
                    self@,
                    card_id@,
                    logv,
                    view_opt(title),
                    view_opt(amount),
                    nowv,
                    r->Ok_0@,
                ));
            }
        }
        r
    }

    /// Archives every active card created at or before the cutoff, one
    /// `archived` change row per card tagged `auto_archive_30_days`, and
    /// reports how many were taken. Taking none is a normal outcome.
    pub fn archive_old_cards_at(&mut self, cutoff: String, now: String) -> (r: Result<
        ArchiveResult,
        AppError,
    >)
        requires
            old(self)@.wf(),
        ensures
            final(self)@.wf(),
            match r {
                Ok(res) => archive_sweep_post(
                    old(self)@,
                    final(self)@,
                    cutoff@,
                    now@,
                    res.archived_count as int,
                ),
                Err(_) => false,
            },
    {
        let n = self.cards.len();
        let mut count: usize = 0;
        let mut i: usize = 0;
        proof {
            assert(old(self)@.cards.take(0) =~= Seq::<CardV>::empty());
            assert(self@.changes.take(old(self)@.changes.len() as int) =~= old(self)@.changes);
        }
        while i < n
            invariant
                i <= n,
                n == self.cards.len(),
                n == old(self)@.cards.len(),
                n <= 0x7fff_ffff,
                count <= i,
                self@.todos == old(self)@.todos,
                forall|m: int|
                    0 <= m < i ==> #[trigger] self@.cards[m] == sweep_card(
                        old(self)@.cards[m],
                        cutoff@,
                        now@,
                    ),
                forall|m: int| i <= m < n ==> #[trigger] self@.cards[m] == old(self)@.cards[m],
                count as int == eligible_cards(old(self)@.cards.take(i as int), cutoff@).len(),
                sweep_log_post(
                    old(self)@.changes,
                    self@.changes,
                    eligible_cards(old(self)@.cards.take(i as int), cutoff@),
                    now@,
                ),
            decreases n - i,
        {
            let ghost prefix = old(self)@.cards.take(i as int);
            let ghost post = old(self)@.cards.take(i as int + 1);
            let ghost cv = old(self)@.cards[i as int];
            proof {
                assert(post.drop_last() =~= prefix);
                assert(post.last() == cv);
            }
            let c = &self.cards[i];
            let take_it = !c.archived && crate::text::str_le(
                c.created_at.as_str(),
                cutoff.as_str(),
            );
            if take_it {
                let ghost cards_before = self@.cards;
                let cid = c.id.clone();
                let newc = Card {
                    id: c.id.clone(),
                    title: clone_opt(&c.title),
                    amount_micros: c.amount_micros,
                    locked_micros: c.locked_micros,
                    archived: true,
                    created_at: c.created_at.clone(),
                    updated_at: now.clone(),
                    archived_at: Some(now.clone()),
                };
                self.cards[i] = newc;
                proof {
                    assert(self@.cards =~= cards_before.update(
                        i as int,
                        CardV {
                            archived: true,
                            archived_at: Some(now@),
                            updated_at: now@,
                            ..cv
                        },
                    ));
                }
                let lid = generate_id();
                proof {
                    reveal_strlit("auto_archive_30_days");
                }
                let ghost changes_before = self@.changes;
                self.changes.push(
                    ChangeRow {
                        id: lid,
                        card_id: cid,
                        kind: ChangeKind::Archived,
                        payload: PayloadDto {
                            title: None,
                            amount: None,
                            todo_id: None,
                            done: None,
                            card_amount_change: None,
                            reason: Some(String::from_str("auto_archive_30_days")),
                        },
                        created_at: now.clone(),
                    },
                );
                count = count + 1;
                proof {
                    assert(sweep_eligible(cv, cutoff@));
                    assert(eligible_cards(post, cutoff@) =~= eligible_cards(
                        prefix,
                        cutoff@,
                    ).push(cv));
                    assert(self@.changes =~= changes_before.push(
                        self@.changes[self@.changes.len() - 1],
                    ));
                    let el = eligible_cards(post, cutoff@);
                    let pl = old(self)@.changes.len() as int;
                    assert(self@.changes.take(pl) =~= changes_before.take(pl));
                    assert forall|k: int| 0 <= k < el.len() implies {
                        let row = #[trigger] self@.changes[pl + k];
                        row.card_id == el[k].id && row.kind == ChangeKind::Archived && row.payload
                            == reason_payload("auto_archive_30_days"@) && row.created_at == now@
                    } by {
                        let elp = eligible_cards(prefix, cutoff@);
                        if k < elp.len() {
                            assert(self@.changes[pl + k] == changes_before[pl + k]);
                            assert(el[k] == elp[k]);
                        } else {
                            assert(el[k] == cv);
                            assert(self@.changes[pl + k] == self@.changes[
                                self@.changes.len() - 1
                            ]);
                        }
                    }
                    assert(self@.cards[i as int] == sweep_card(cv, cutoff@, now@));
                }
            } else {
                proof {
                    assert(!sweep_eligible(cv, cutoff@));
                    assert(eligible_cards(post, cutoff@) =~= eligible_cards(prefix, cutoff@));
                    assert(self@.cards[i as int] == sweep_card(cv, cutoff@, now@));
                }
            }
            i = i + 1;
        }
        proof {
            assert(old(self)@.cards.take(n as int) =~= old(self)@.cards);
            assert(self@.cards =~= spec_archive_sweep(old(self)@.cards, cutoff@, now@));
            assert(self@.wf()) by {
                assert forall|m: int| 0 <= m < self@.cards.len() implies #[trigger] self@.cards[m].id
                    == old(self)@.cards[m].id by {
                    assert(self@.cards[m] == sweep_card(old(self)@.cards[m], cutoff@, now@));
                }
                assert forall|p: int, q: int| 0 <= p < q < self@.cards.len() implies
                    #[trigger] self@.cards[p].id != #[trigger] self@.cards[q].id by {
                    assert(old(self)@.cards[p].id != old(self)@.cards[q].id);
                }
                assert forall|m: int| 0 <= m < self@.todos.len() implies has_card(
                    self@.cards,
                    #[trigger] self@.todos[m].card_id,
                ) by {
                    assert(has_card(old(self)@.cards, old(self)@.todos[m].card_id));
                    let w = card_idx(old(self)@.cards, old(self)@.todos[m].card_id);
                    assert(self@.cards[w].id == old(self)@.cards[w].id);
                }
                assert forall|m: int| 0 <= m < self@.cards.len() implies
                    (#[trigger] self@.cards[m].archived <==> self@.cards[m].archived_at
                    is Some) by {
                    assert(self@.cards[m] == sweep_card(old(self)@.cards[m], cutoff@, now@));
                }
            }
        }
        let archived_count: i32 = count as i32;
        Ok(ArchiveResult { archived_count })
    }

    /// Runs the archival sweep against the cutoff `ARCHIVE_AGE_DAYS`
    /// days before now. Fails with `Internal` only when the clock cannot
    /// give that cutoff; the store is then unchanged.
    pub fn archive_old_cards(&mut self) -> (r: Result<ArchiveResult, AppError>)
        requires
            old(self)@.wf(),
        ensures
            final(self)@.wf(),
            match r {
                Ok(res) => exists|cutoff: Seq<char>, now: Seq<char>|
                    #[trigger] archive_sweep_post(
                        old(self)@,
                        final(self)@,
                        cutoff,
                        now,
                        res.archived_count as int,
                    ),
                Err(e) => final(self)@ == old(self)@ && (e matches AppError::Internal(m)
                    && m@ == "clock out of range"@),
            },
    {
        let cutoff = match iso_days_ago(ARCHIVE_AGE_DAYS) {
            Some(c) => c,
            None => {
                return Err(AppError::Internal(String::from_str("clock out of range")));
            },
        };
        let now = now_iso();
        let ghost cutv = cutoff@;
        let ghost nowv = now@;
        let r = self.archive_old_cards_at(cutoff, now);
        proof {
            if r is Ok {
                assert(archive_sweep_post(
                    old(self)@,
                    self@,
                    cutv,
                    nowv,
                    r->Ok_0.archived_count as int,
                ));
            }
        }
        r
    }

    /// Hard-deletes a card; its todos go with it, and with them every
    /// row either of them contributed to the search projection. Writes no
    /// change row. Deleting an absent id is a no-op that still succeeds,
    /// as a delete of zero rows is.
    pub fn delete_card(&mut self, card_id: String) -> (r: Result<OkResponse, AppError>)
        requires
            old(self)@.wf(),
        ensures
            final(self)@.wf(),
            match r {
                Ok(res) => res.ok && if has_card(old(self)@.cards, card_id@) {
                    &&& final(self)@.cards == old(self)@.cards.remove(
                        card_idx(old(self)@.cards, card_id@),
                    )
                    &&& final(self)@.todos == todos_without(old(self)@.todos, card_id@)
                    &&& final(self)@.changes == old(self)@.changes
                } else {
                    final(self)@ == old(self)@
                },
                Err(_) => false,
            },
    {
        let i = match self.find_card(&card_id) {
            Some(i) => i,
            None => {
                return Ok(OkResponse { ok: true });
            },
        };
        proof {
            lemma_unique_card_idx(self@.cards, card_id@, i as int);
        }
        let ghost pre = self@;
        self.cards.remove(i);
        let n = self.todos.len();
        let mut kept: Vec<Todo> = Vec::new();
        let mut k: usize = 0;
        proof {
            assert(pre.todos.take(0) =~= Seq::<TodoV>::empty());
            assert(todos_view(kept@) =~= Seq::<TodoV>::empty());
        }
        while k < n
            invariant
                k <= n,
                n == self.todos.len(),
                self@.todos == pre.todos,
                todos_view(kept@) == todos_without(pre.todos.take(k as int), card_id@),
            decreases n - k,
        {
            let ghost prefix = pre.todos.take(k as int);
            let ghost post = pre.todos.take(k as int + 1);
            proof {
                assert(post.drop_last() =~= prefix);
                assert(post.last() == pre.todos[k as int]);
            }
            if !(self.todos[k].card_id == card_id) {
                let ghost old_kept = kept@;
                kept.push(clone_todo(&self.todos[k]));
                proof {
                    assert(todos_view(kept@) =~= todos_without(post, card_id@)) by {
                        assert(kept@ == old_kept.push(kept@[kept@.len() - 1]));
                        assert(todos_without(post, card_id@) =~= todos_without(
                            prefix,
                            card_id@,
                        ).push(pre.todos[k as int]));
                        assert forall|m: int| 0 <= m < kept@.len() implies #[trigger] todos_view(
                            kept@,
                        )[m] == todos_without(post, card_id@)[m] by {
                            if m < kept@.len() - 1 {
                                assert(kept@[m] == old_kept[m]);
                                assert(todos_view(old_kept)[m] == todos_without(
                                    prefix,
                                    card_id@,
                                )[m]);
                            }
                        }
                    }
                }
            } else {
                proof {
                    assert(todos_without(post, card_id@) =~= todos_without(prefix, card_id@));
                }
            }
            k = k + 1;
        }
        self.todos = kept;
        proof {
            assert(pre.todos.take(n as int) =~= pre.todos);
            assert(self@.cards =~= pre.cards.remove(i as int));
            assert(self@.changes =~= pre.changes);
            assert(self@.wf()) by {
                lemma_todos_without_unique(pre.todos, card_id@);
                assert forall|p: int, q: int| 0 <= p < q < self@.cards.len() implies
                    #[trigger] self@.cards[p].id != #[trigger] self@.cards[q].id by {
                    let p0 = if p < i {
                        p
                    } else {
                        p + 1
                    };
                    let q0 = if q < i {
                        q
                    } else {
                        q + 1
                    };
                    assert(self@.cards[p] == pre.cards[p0]);
                    assert(self@.cards[q] == pre.cards[q0]);
                    assert(pre.cards[p0].id != pre.cards[q0].id);
                }
                assert forall|m: int| 0 <= m < self@.todos.len() implies has_card(
                    self@.cards,
                    #[trigger] self@.todos[m].card_id,
                ) by {
                    let t = self@.todos[m];
                    assert(t.card_id != card_id@);
                    let j = choose|j: int| 0 <= j < pre.todos.len() && pre.todos[j] == t;
                    assert(has_card(pre.cards, t.card_id));
                    let w = card_idx(pre.cards, t.card_id);
                    assert(pre.cards[w].id == t.card_id);
                    assert(w != i);
                    if w < i {
                        assert(self@.cards[w].id == t.card_id);
                    } else {
                        assert(self@.cards[w - 1] == pre.cards[w]);
                    }
                }
                assert forall|m: int| 0 <= m < self@.cards.len() implies
                    (#[trigger] self@.cards[m].archived <==> self@.cards[m].archived_at
                    is Some) by {
                    let m0 = if m < i {
                        m
                    } else {
                        m + 1
                    };
                    assert(self@.cards[m] == pre.cards[m0]);
                }
            }
        }
        Ok(OkResponse { ok: true })
    }
}

} // verus!
