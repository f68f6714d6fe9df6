//! Todo operations: add, update, delete.
//!
//! Adding a todo debits the owning card inside the same mutation. Editing
//! or deleting a todo later does not credit the card back: the deduction
//! made at creation time is deliberately permanent.

use vstd::prelude::*;

use crate::amount::amount_micros;
use crate::amount::amount_string;
use crate::amount::format_amount;
use crate::amount::parse_amount;
use crate::amount::valid_amount;
use crate::errors::AppError;
use crate::models::AddTodoResult;
use crate::models::CardDtoV;
use crate::models::OkResponse;
use crate::models::PayloadDto;
use crate::models::PayloadDtoV;
use crate::models::TodoDto;
use crate::models::TodoDtoV;
use crate::models::view_opt;
use crate::runtime::generate_id;
use crate::runtime::now_iso;
use crate::store::Card;
use crate::store::CardV;
use crate::store::ChangeKind;
use crate::store::ChangeRow;
use crate::store::ChangeV;
use crate::store::Store;
use crate::store::StoreView;
use crate::store::Todo;
use crate::store::TodoV;
use crate::store::card_dto_of;
use crate::store::card_idx;
use crate::store::card_to_dto;
use crate::store::clone_opt;
use crate::store::has_card;
use crate::store::has_todo;
use crate::store::lemma_unique_card_idx;
use crate::store::lemma_unique_todo_idx;
use crate::store::lemma_wf_update_same_id;
use crate::store::todo_dto_of;
use crate::store::todo_idx;
use crate::store::todo_to_dto;
use crate::store::todos_of;

verus! {

/// The greatest manual order index among one card's todos, or zero when
/// it has none.
pub open spec fn max_order(todos: Seq<TodoV>, cid: Seq<char>) -> int
    decreases todos.len(),
{
    if todos.len() == 0 {
        0
    } else {
        let r = max_order(todos.drop_last(), cid);
        if todos.last().card_id == cid {
            if todos_of(todos.drop_last(), cid).len() == 0 {
                todos.last().order_index
            } else if todos.last().order_index > r {
                todos.last().order_index
            } else {
                r
            }
        } else {
            r
        }
    }
}

/// The row `add_todo` inserts: not done, appended at the next order
/// index, created and updated at `now`.
pub open spec fn spec_new_todo(
    todo_id: Seq<char>,
    cid: Seq<char>,
    title: Seq<char>,
    amount: Option<int>,
    scheduled_at: Option<Seq<char>>,
    order_index: int,
    now: Seq<char>,
) -> TodoV {
    TodoV {
        id: todo_id,
        card_id: cid,
        title: title,
        amount: amount,
        done: false,
        scheduled_at: scheduled_at,
        order_index: order_index,
        created_at: now,
        updated_at: now,
    }
}

/// The payload of a `todo_added` change row: the new todo, the raw
/// amount as requested, and the balance transition it caused.
pub open spec fn todo_added_payload(
    todo_id: Seq<char>,
    title: Seq<char>,
    amount_raw: Option<Seq<char>>,
    change: Seq<char>,
) -> PayloadDtoV {
    PayloadDtoV {
        title: Some(title),
        amount: amount_raw,
        todo_id: Some(todo_id),
        done: None,
        card_amount_change: Some(change),
        reason: None,
    }
}

/// The rendered balance transition `old -> new`.
pub open spec fn amount_change_string(old_amt: int, new_amt: int) -> Seq<char> {
    amount_string(old_amt) + " -> "@ + amount_string(new_amt)
}

/// What a successful `add_todo` does: the card's balance drops by the
/// todo's amount (or stays put without one), the todo lands at the next
/// order index, and one `todo_added` change row records the transition.
pub open spec fn add_todo_post(
    pre: StoreView,
    post: StoreView,
    cid: Seq<char>,
    todo_id: Seq<char>,
    log_id: Seq<char>,
    title: Seq<char>,
    amount_raw: Option<Seq<char>>,
    scheduled_at: Option<Seq<char>>,
    now: Seq<char>,
    todo_dto: TodoDtoV,
    card_dto: CardDtoV,
) -> bool {
    let i = card_idx(pre.cards, cid);
    let old_amt = pre.cards[i].amount;
    let x: int = match amount_raw {
        Some(a) => amount_micros(a),
        None => 0,
    };
    let new_amt = old_amt - x;
    let ord = max_order(pre.todos, cid) + 1;
    let nt = spec_new_todo(
        todo_id,
        cid,
        title,
        match amount_raw {
            Some(a) => Some(amount_micros(a)),
            None => None,
        },
        scheduled_at,
        ord,
        now,
    );
    &&& has_card(pre.cards, cid)
    &&& (amount_raw matches Some(a) ==> valid_amount(a))
    &&& !has_todo(pre.todos, todo_id)
    &&& post.cards == pre.cards.update(
        i,
        CardV { amount: new_amt, updated_at: now, ..pre.cards[i] },
    )
    &&& post.todos == pre.todos.push(nt)
    &&& post.changes == pre.changes.push(
        ChangeV {
            id: log_id,
            card_id: cid,
            kind: ChangeKind::TodoAdded,
            payload: todo_added_payload(
                todo_id,
                title,
                amount_raw,
                amount_change_string(old_amt, new_amt),
            ),
            created_at: now,
        },
    )
    &&& todo_dto == todo_dto_of(nt)
    &&& card_dto == card_dto_of(post.cards[i])
}

/// The scheduling a new todo ends up with: the call time itself when the
/// caller asked for the current time, otherwise whatever time the caller
/// chose, if any.
pub open spec fn effective_sched(
    use_current_time: bool,
    scheduled_at: Option<String>,
    now: Seq<char>,
) -> Option<Seq<char>> {
    if use_current_time {
        Some(now)
    } else {
        view_opt(scheduled_at)
    }
}

/// The view of an optional order index.
pub open spec fn opt_order_view(o: Option<i32>) -> Option<int> {
    match o {
        Some(v) => Some(v as int),
        None => None,
    }
}

/// How a todo row looks after a partial update: every field is
/// independently optional and keeps its prior value when absent. The
/// owning card's balance is deliberately not readjusted.
pub open spec fn spec_updated_todo(
    t: TodoV,
    title: Option<Seq<char>>,
    amount_raw: Option<Seq<char>>,
    done: Option<bool>,
    scheduled_at: Option<Seq<char>>,
    order_index: Option<int>,
    now: Seq<char>,
) -> TodoV {
    TodoV {
        title: match title {
            Some(tt) => tt,
            None => t.title,
        },
        amount: match amount_raw {
            Some(a) => Some(amount_micros(a)),
            None => t.amount,
        },
        done: match done {
            Some(d) => d,
            None => t.done,
        },
        scheduled_at: if scheduled_at is Some {
            scheduled_at
        } else {
            t.scheduled_at
        },
        order_index: match order_index {
            Some(o) => o,
            None => t.order_index,
        },
        updated_at: now,
        ..t
    }
}

/// The payload of a `todo_updated` change row: the todo, its effective
/// title and its effective done flag.
pub open spec fn todo_updated_payload(
    todo_id: Seq<char>,
    title: Seq<char>,
    done: bool,
) -> PayloadDtoV {
    PayloadDtoV {
        title: Some(title),
        amount: None,
        todo_id: Some(todo_id),
        done: Some(done),
        card_amount_change: None,
        reason: None,
    }
}

/// What a successful todo update does: that one row changes, the cards
/// and their balances do not, and one `todo_updated` change row lands
/// under the owning card.
pub open spec fn update_todo_post(
    pre: StoreView,
    post: StoreView,
    todo_id: Seq<char>,
    log_id: Seq<char>,
    title: Option<Seq<char>>,
    amount_raw: Option<Seq<char>>,
    done: Option<bool>,
    scheduled_at: Option<Seq<char>>,
    order_index: Option<int>,
    now: Seq<char>,
    dto: TodoDtoV,
) -> bool {
    let j = todo_idx(pre.todos, todo_id);
    let nt = spec_updated_todo(
        pre.todos[j],
        title,
        amount_raw,
        done,
        scheduled_at,
        order_index,
        now,
    );
    &&& has_todo(pre.todos, todo_id)
    &&& (amount_raw matches Some(a) ==> valid_amount(a))
    &&& post.cards == pre.cards
    &&& post.todos == pre.todos.update(j, nt)
    &&& post.changes == pre.changes.push(
        ChangeV {
            id: log_id,
            card_id: pre.todos[j].card_id,
            kind: ChangeKind::TodoUpdated,
            payload: todo_updated_payload(todo_id, nt.title, nt.done),
            created_at: now,
        },
    )
    &&& dto == todo_dto_of(nt)
}

/// The payload of a `todo_deleted` change row: the todo and the title it
/// carried.
pub open spec fn todo_deleted_payload(todo_id: Seq<char>, title: Seq<char>) -> PayloadDtoV {
    PayloadDtoV {
        title: Some(title),
        amount: None,
        todo_id: Some(todo_id),
        done: None,
        card_amount_change: None,
        reason: None,
    }
}

/// What a successful todo deletion does: that one row goes, the cards
/// and their balances stay (the deduction made at creation is not
/// restored), and one `todo_deleted` change row lands under the owning
/// card.
pub open spec fn delete_todo_post(
    pre: StoreView,
    post: StoreView,
    todo_id: Seq<char>,
    log_id: Seq<char>,
    now: Seq<char>,
) -> bool {
    let j = todo_idx(pre.todos, todo_id);
    &&& has_todo(pre.todos, todo_id)
    &&& post.cards == pre.cards
    &&& post.todos == pre.todos.remove(j)
    &&& post.changes == pre.changes.push(
        ChangeV {
            id: log_id,
            card_id: pre.todos[j].card_id,
            kind: ChangeKind::TodoDeleted,
            payload: todo_deleted_payload(todo_id, pre.todos[j].title),
            created_at: now,
        },
    )
}

impl Store {
    /// The next order index for a card's new todo, and whether computing
    /// it stayed in range.
    fn next_order_index(&self, cid: &String) -> (r: Option<i32>)
        ensures
            match r {
                Some(v) => v as int == max_order(self@.todos, cid@) + 1,
                None => max_order(self@.todos, cid@) + 1 > i32::MAX,
            },
    {
        let n = self.todos.len();
        let mut found = false;
        let mut mx: i32 = 0;
        let mut k: usize = 0;
        proof {
            assert(self@.todos.take(0) =~= Seq::<TodoV>::empty());
        }
        while k < n
            invariant
                k <= n,
                n == self.todos.len(),
                found <==> todos_of(self@.todos.take(k as int), cid@).len() > 0,
                mx as int == max_order(self@.todos.take(k as int), cid@),
            decreases n - k,
        {
            let ghost prefix = self@.todos.take(k as int);
            let ghost post = self@.todos.take(k as int + 1);
            proof {
                assert(post.drop_last() =~= prefix);
                assert(post.last() == self@.todos[k as int]);
            }
            if self.todos[k].card_id == *cid {
                if !found || self.todos[k].order_index > mx {
                    mx = self.todos[k].order_index;
                }
                proof {
                    assert(todos_of(post, cid@) =~= todos_of(prefix, cid@).push(
                        self@.todos[k as int],
                    ));
                }
                found = true;
            } else {
                proof {
                    assert(todos_of(post, cid@) =~= todos_of(prefix, cid@));
                }
            }
            k = k + 1;
        }
        proof {
            assert(self@.todos.take(n as int) =~= self@.todos);
        }
        if mx == i32::MAX {
            None
        } else {
            Some(mx + 1)
        }
    }

    /// Adds a todo from caller-chosen row id, change-row id and
    /// timestamp, atomically debiting the owning card. The balance may
    /// go negative; that is not an error. `InvalidAmount` when the
    /// amount does not parse, then `CardNotFound` when the card id
    /// matches nothing, `Database` on a duplicate todo id, `Internal`
    /// when the new balance or order index leaves its machine range; on
    /// any error the store is unchanged.
    pub fn add_todo_at(
        &mut self,
        card_id: String,
        todo_id: String,
        log_id: String,
        title: String,
        amount: Option<String>,
        scheduled_at: Option<String>,
        now: String,
    ) -> (r: Result<AddTodoResult, AppError>)
        requires
            old(self)@.wf(),
        ensures
            final(self)@.wf(),
            match r {
                Ok(res) => add_todo_post(
                    old(self)@,
                    final(self)@,
                    card_id@,
                    todo_id@,
                    log_id@,
                    title@,
                    view_opt(amount),
                    view_opt(scheduled_at),
                    now@,
                    res.todo@,
                    res.updated_card@,
                ),
                Err(e) => final(self)@ == old(self)@ && match e {
                    AppError::InvalidAmount(m) => amount matches Some(a) && m@ == a@
                        && !valid_amount(a@),
                    // The amount is parsed before the store is read, so
                    // every later failure implies it was well-formed.
                    AppError::CardNotFound(m) => (amount matches Some(a) ==> valid_amount(a@))
                        && m@ == card_id@ && !has_card(old(self)@.cards, card_id@),
                    AppError::Database(_) => (amount matches Some(a) ==> valid_amount(a@))
                        && has_card(old(self)@.cards, card_id@) && has_todo(
                        old(self)@.todos,
                        todo_id@,
                    ),
                    AppError::Internal(_) => {
                        let i = card_idx(old(self)@.cards, card_id@);
                        let x: int = match view_opt(amount) {
                            Some(a) => amount_micros(a),
                            None => 0,
                        };
                        (amount matches Some(a) ==> valid_amount(a@)) && has_card(
                            old(self)@.cards,
                            card_id@,
                        ) && !has_todo(old(self)@.todos, todo_id@) && (old(self)@.cards[i].amount
                            - x < i64::MIN || old(self)@.cards[i].amount - x > i64::MAX
                            || max_order(old(self)@.todos, card_id@) + 1 > i32::MAX)
                    },
                    _ => false,
                },
            },
    {
        let micros_opt: Option<i64> = match &amount {
            Some(a) => match parse_amount(a.as_str()) {
                Some(v) => Some(v),
                None => {
                    return Err(AppError::InvalidAmount(a.clone()));
                },
            },
            None => None,
        };
        let i = match self.find_card(&card_id) {
            Some(i) => i,
            None => {
                return Err(AppError::CardNotFound(card_id));
            },
        };
        proof {
            lemma_unique_card_idx(self@.cards, card_id@, i as int);
        }
        if self.find_todo(&todo_id).is_some() {
            return Err(AppError::Database(String::from_str("duplicate todo id")));
        }
        let x: i64 = match micros_opt {
            Some(v) => v,
            None => 0,
        };
        let old_amt: i64 = self.cards[i].amount_micros;
        let new_amt: i64 = match old_amt.checked_sub(x) {
            Some(v) => v,
            None => {
                return Err(AppError::Internal(String::from_str("card balance out of range")));
            },
        };
        let ord: i32 = match self.next_order_index(&card_id) {
            Some(v) => v,
            None => {
                return Err(AppError::Internal(String::from_str("order index out of range")));
            },
        };
        let ghost pre = self@;
        let c = &self.cards[i];
        let newc = Card {
            id: c.id.clone(),
            title: clone_opt(&c.title),
            amount_micros: new_amt,
            locked_micros: c.locked_micros,
            archived: c.archived,
            created_at: c.created_at.clone(),
            updated_at: now.clone(),
            archived_at: clone_opt(&c.archived_at),
        };
        self.cards[i] = newc;
        let todo = Todo {
            id: todo_id.clone(),
            card_id: card_id.clone(),
            title: title.clone(),
            amount_micros: micros_opt,
            done: false,
            scheduled_at: clone_opt(&scheduled_at),
            order_index: ord,
            created_at: now.clone(),
            updated_at: now.clone(),
        };
        self.todos.push(todo);
        let mut change = format_amount(old_amt);
        proof {
            reveal_strlit(" -> ");
        }
        change.append(" -> ");
        change.append(format_amount(new_amt).as_str());
        self.changes.push(
            ChangeRow {
                id: log_id,
                card_id: card_id.clone(),
                kind: ChangeKind::TodoAdded,
                payload: PayloadDto {
                    title: Some(title.clone()),
                    amount: clone_opt(&amount),
                    todo_id: Some(todo_id.clone()),
                    done: None,
                    card_amount_change: Some(change),
                    reason: None,
                },
                created_at: now.clone(),
            },
        );
        let todo_dto = todo_to_dto(&self.todos[self.todos.len() - 1]);
        let card_dto = card_to_dto(&self.cards[i]);
        proof {
            let cv = CardV { amount: new_amt as int, updated_at: now@, ..pre.cards[i as int] };
            let nt = spec_new_todo(
                todo_id@,
                card_id@,
                title@,
                match view_opt(amount) {
                    Some(a) => Some(amount_micros(a)),
                    None => None,
                },
                view_opt(scheduled_at),
                ord as int,
                now@,
            );
            assert(self@.cards =~= pre.cards.update(i as int, cv));
            assert(self@.todos =~= pre.todos.push(nt));
            assert(self@.changes =~= pre.changes.push(
                ChangeV {
                    id: log_id@,
                    card_id: card_id@,
                    kind: ChangeKind::TodoAdded,
                    payload: todo_added_payload(
                        todo_id@,
                        title@,
                        view_opt(amount),
                        amount_change_string(old_amt as int, new_amt as int),
                    ),
                    created_at: now@,
                },
            ));
            let mid = StoreView { cards: self@.cards, todos: pre.todos, changes: self@.changes };
            lemma_wf_update_same_id(pre, mid, i as int, cv);
            assert(self@.wf()) by {
                assert forall|p: int, q: int| 0 <= p < q < self@.todos.len() implies
                    #[trigger] self@.todos[p].id != #[trigger] self@.todos[q].id by {
                    if q < pre.todos.len() {
                        assert(mid.todos[p].id != mid.todos[q].id);
                    } else {
                        assert(self@.todos[p] == pre.todos[p]);
                        assert(self@.todos[q] == nt);
                    }
                }
                assert forall|m: int| 0 <= m < self@.todos.len() implies has_card(
                    self@.cards,
                    #[trigger] self@.todos[m].card_id,
                ) by {
                    if m < pre.todos.len() {
                        assert(has_card(mid.cards, mid.todos[m].card_id));
                    } else {
                        assert(self@.todos[m] == nt);
                        assert(self@.cards[i as int].id == card_id@);
                    }
                }
            }
            assert(todo_dto@ == todo_dto_of(nt));
        }
        Ok(AddTodoResult { todo: todo_dto, updated_card: card_dto })
    }

    /// Adds a todo with fresh ids at the current time; when
    /// `use_current_time` is set the todo is scheduled now, otherwise at
    /// the caller's chosen time, if any.
    pub fn add_todo(
        &mut self,
        card_id: String,
        title: String,
        amount: Option<String>,
        use_current_time: bool,
        scheduled_at: Option<String>,
    ) -> (r: Result<AddTodoResult, AppError>)
        requires
            old(self)@.wf(),
        ensures
            final(self)@.wf(),
            match r {
                Ok(res) => exists|todo_id: Seq<char>, log_id: Seq<char>, now: Seq<char>|
                    #[trigger] add_todo_post(
                        old(self)@,
                        final(self)@,
                        card_id@,
                        todo_id,
                        log_id,
                        title@,
                        view_opt(amount),
                        effective_sched(use_current_time, scheduled_at, now),
                        now,
                        res.todo@,
                        res.updated_card@,
                    ),
                Err(e) => final(self)@ == old(self)@ && match e {
                    AppError::InvalidAmount(m) => amount matches Some(a) && m@ == a@
                        && !valid_amount(a@),
                    AppError::CardNotFound(m) => (amount matches Some(a) ==> valid_amount(a@))
                        && m@ == card_id@ && !has_card(old(self)@.cards, card_id@),
                    // A fresh random todo id can collide only with an
                    // existing row.
                    AppError::Database(_) => (amount matches Some(a) ==> valid_amount(a@))
                        && has_card(old(self)@.cards, card_id@) && old(self)@.todos.len() > 0,
                    AppError::Internal(_) => {
                        let i = card_idx(old(self)@.cards, card_id@);
                        let x: int = match view_opt(amount) {
                            Some(a) => amount_micros(a),
                            None => 0,
                        };
                        (amount matches Some(a) ==> valid_amount(a@)) && has_card(
                            old(self)@.cards,
                            card_id@,
                        ) && (old(self)@.cards[i].amount - x < i64::MIN || old(
                            self,
                        )@.cards[i].amount - x > i64::MAX || max_order(old(self)@.todos, card_id@)
                            + 1 > i32::MAX)
                    },
                    _ => false,
                },
            },
    {
        let todo_id = generate_id();
        let log_id = generate_id();
        let now = now_iso();
        let actual_scheduled_at: Option<String> = if use_current_time {
            Some(now.clone())
        } else {
            scheduled_at
        };
        let ghost tid = todo_id@;
        let ghost lid = log_id@;
        let ghost nowv = now@;
        let ghost sched = view_opt(actual_scheduled_at);
        proof {
            assert(sched == effective_sched(use_current_time, scheduled_at, nowv));
        }
        let r = self.add_todo_at(card_id, todo_id, log_id, title, amount, actual_scheduled_at, now);
        proof {
            if r is Ok {
                assert(add_todo_post(
                    old(self)@,
                    self@,
                    card_id@,
                    tid,
                    lid,
                    title@,
                    view_opt(amount),
                    effective_sched(use_current_time, scheduled_at, nowv),
                    nowv,
                    r->Ok_0.todo@,
                    r->Ok_0.updated_card@,
                ));
            }
            if r matches Err(AppError::Database(_)) {
                assert(has_todo(old(self)@.todos, tid));
                let w = todo_idx(old(self)@.todos, tid);
                assert(0 <= w < old(self)@.todos.len());
            }
        }
        r
    }

    /// Applies a partial update to a todo from caller-chosen change-row
    /// id and timestamp. `TodoNotFound` when the id matches nothing,
    /// then `InvalidAmount` when a supplied amount does not parse; on
    /// any error the store is unchanged. Changing the amount here does
    /// not touch the owning card's balance.
    pub fn update_todo_at(
        &mut self,
        todo_id: String,
        log_id: String,
        title: Option<String>,
        amount: Option<String>,
        done: Option<bool>,
        scheduled_at: Option<String>,
        order_index: Option<i32>,
        now: String,
    ) -> (r: Result<TodoDto, AppError>)
        requires
            old(self)@.wf(),
        ensures
            final(self)@.wf(),
            match r {
                Ok(dto) => update_todo_post(
                    old(self)@,
                    final(self)@,
                    todo_id@,
                    log_id@,
                    view_opt(title),
                    view_opt(amount),
                    done,
                    view_opt(scheduled_at),
                    opt_order_view(order_index),
                    now@,
                    dto@,
                ),
                Err(e) => final(self)@ == old(self)@ && match e {
                    AppError::TodoNotFound(m) => m@ == todo_id@ && !has_todo(
                        old(self)@.todos,
                        todo_id@,
                    ),
                    AppError::InvalidAmount(m) => has_todo(old(self)@.todos, todo_id@) && (
                    amount matches Some(a) && m@ == a@ && !valid_amount(a@)),
                    _ => false,
                },
            },
    {
        let j = match self.find_todo(&todo_id) {
            Some(j) => j,
            None => {
                return Err(AppError::TodoNotFound(todo_id));
            },
        };
        proof {
            lemma_unique_todo_idx(self@.todos, todo_id@, j as int);
        }
        let micros_opt: Option<i64> = match &amount {
            Some(a) => match parse_amount(a.as_str()) {
                Some(v) => Some(v),
                None => {
                    return Err(AppError::InvalidAmount(a.clone()));
                },
            },
            None => None,
        };
        let ghost pre = self@;
        let t = &self.todos[j];
        let nt_title: String = match title {
            Some(tt) => tt,
            None => t.title.clone(),
        };
        let nt_amount: Option<i64> = match micros_opt {
            Some(v) => Some(v),
            None => t.amount_micros,
        };
        let nt_done: bool = match done {
            Some(d) => d,
            None => t.done,
        };
        let nt_sched: Option<String> = match scheduled_at {
            Some(s) => Some(s),
            None => clone_opt(&t.scheduled_at),
        };
        let nt_order: i32 = match order_index {
            Some(o) => o,
            None => t.order_index,
        };
        let cid = t.card_id.clone();
        let newt = Todo {
            id: t.id.clone(),
            card_id: t.card_id.clone(),
            title: nt_title.clone(),
            amount_micros: nt_amount,
            done: nt_done,
            scheduled_at: nt_sched,
            order_index: nt_order,
            created_at: t.created_at.clone(),
            updated_at: now.clone(),
        };
        self.todos[j] = newt;
        self.changes.push(
            ChangeRow {
                id: log_id,
                card_id: cid,
                kind: ChangeKind::TodoUpdated,
                payload: PayloadDto {
                    title: Some(nt_title),
                    amount: None,
                    todo_id: Some(todo_id),
                    done: Some(nt_done),
                    card_amount_change: None,
                    reason: None,
                },
                created_at: now,
            },
        );
        let dto = todo_to_dto(&self.todos[j]);
        proof {
            let ntv = spec_updated_todo(
                pre.todos[j as int],
                view_opt(title),
                view_opt(amount),
                done,
                view_opt(scheduled_at),
                opt_order_view(order_index),
                now@,
            );
            assert(self@.cards =~= pre.cards);
            assert(self@.todos =~= pre.todos.update(j as int, ntv));
            assert(self@.changes =~= pre.changes.push(
                ChangeV {
                    id: log_id@,
                    card_id: pre.todos[j as int].card_id,
                    kind: ChangeKind::TodoUpdated,
                    payload: todo_updated_payload(todo_id@, ntv.title, ntv.done),
                    created_at: now@,
                },
            ));
            assert(self@.wf()) by {
                assert forall|p: int, q: int| 0 <= p < q < self@.todos.len() implies
                    #[trigger] self@.todos[p].id != #[trigger] self@.todos[q].id by {
                    assert(pre.todos[p].id != pre.todos[q].id);
                    if p != j {
                        assert(self@.todos[p] == pre.todos[p]);
                    }
                    if q != j {
                        assert(self@.todos[q] == pre.todos[q]);
                    }
                }
                assert forall|m: int| 0 <= m < self@.todos.len() implies has_card(
                    self@.cards,
                    #[trigger] self@.todos[m].card_id,
                ) by {
                    if m != j {
                        assert(self@.todos[m] == pre.todos[m]);
                    }
                    assert(has_card(pre.cards, pre.todos[m].card_id));
                }
            }
        }
        Ok(dto)
    }

    /// Applies a partial todo update with a fresh change-row id at the
    /// current time.
    pub fn update_todo(
        &mut self,
        todo_id: String,
        title: Option<String>,
        amount: Option<String>,
        done: Option<bool>,
        scheduled_at: Option<String>,
        order_index: Option<i32>,
    ) -> (r: Result<TodoDto, AppError>)
        requires
            old(self)@.wf(),
        ensures
            final(self)@.wf(),
            match r {
                Ok(dto) => exists|log_id: Seq<char>, now: Seq<char>|
                    #[trigger] update_todo_post(
                        old(self)@,
                        final(self)@,
                        todo_id@,
                        log_id,
                        view_opt(title),
                        view_opt(amount),
                        done,
                        view_opt(scheduled_at),
                        opt_order_view(order_index),
                        now,
                        dto@,
                    ),
                Err(e) => final(self)@ == old(self)@ && match e {
                    AppError::TodoNotFound(m) => m@ == todo_id@ && !has_todo(
                        old(self)@.todos,
                        todo_id@,
                    ),
                    AppError::InvalidAmount(m) => has_todo(old(self)@.todos, todo_id@) && (
                    amount matches Some(a) && m@ == a@ && !valid_amount(a@)),
                    _ => false,
                },
            },
    {
        let log_id = generate_id();
        let now = now_iso();
        let ghost lid = log_id@;
        let ghost nowv = now@;
        let r = self.update_todo_at(
            todo_id,
            log_id,
            title,
            amount,
            done,
            scheduled_at,
            order_index,
            now,
        );
        proof {
            if r is Ok {
                assert(update_todo_post(
                    old(self)@,
                    self@,
                    todo_id@,
                    lid,
                    view_opt(title),
                    view_opt(amount),
                    done,
                    view_opt(scheduled_at),
                    opt_order_view(order_index),
                    nowv,
                    r->Ok_0@,
                ));
            }
        }
        r
    }

    /// Deletes a todo from caller-chosen change-row id and timestamp.
    /// `TodoNotFound` when the id matches nothing; the store is then
    /// unchanged. The owning card keeps its balance.
    pub fn delete_todo_at(&mut self, todo_id: String, log_id: String, now: String) -> (r: Result<
        OkResponse,
        AppError,
    >)
        requires
            old(self)@.wf(),
        ensures
            final(self)@.wf(),
            match r {
                Ok(res) => res.ok && delete_todo_post(
                    old(self)@,
                    final(self)@,
                    todo_id@,
                    log_id@,
                    now@,
                ),
                Err(e) => final(self)@ == old(self)@ && match e {
                    AppError::TodoNotFound(m) => m@ == todo_id@ && !has_todo(
                        old(self)@.todos,
                        todo_id@,
                    ),
                    _ => false,
                },
            },
    {
        let j = match self.find_todo(&todo_id) {
            Some(j) => j,
            None => {
                return Err(AppError::TodoNotFound(todo_id));
            },
        };
        proof {
            lemma_unique_todo_idx(self@.todos, todo_id@, j as int);
        }
        let ghost pre = self@;
        let t = &self.todos[j];
        let cid = t.card_id.clone();
        let old_title = t.title.clone();
        self.todos.remove(j);
        self.changes.push(
            ChangeRow {
                id: log_id,
                card_id: cid,
                kind: ChangeKind::TodoDeleted,
                payload: PayloadDto {
                    title: Some(old_title),
                    amount: None,
                    todo_id: Some(todo_id),
                    done: None,
                    card_amount_change: None,
                    reason: None,
                },
                created_at: now,
            },
        );
        proof {
            assert(self@.cards =~= pre.cards);
            assert(self@.todos =~= pre.todos.remove(j as int));
            assert(self@.changes =~= pre.changes.push(
                ChangeV {
                    id: log_id@,
                    card_id: pre.todos[j as int].card_id,
                    kind: ChangeKind::TodoDeleted,
                    payload: todo_deleted_payload(todo_id@, pre.todos[j as int].title),
                    created_at: now@,
                },
            ));
            assert(self@.wf()) by {
                assert forall|p: int, q: int| 0 <= p < q < self@.todos.len() implies
                    #[trigger] self@.todos[p].id != #[trigger] self@.todos[q].id by {
                    let p0 = if p < j {
                        p
                    } else {
                        p + 1
                    };
                    let q0 = if q < j {
                        q
                    } else {
                        q + 1
                    };
                    assert(self@.todos[p] == pre.todos[p0]);
                    assert(self@.todos[q] == pre.todos[q0]);
                    assert(pre.todos[p0].id != pre.todos[q0].id);
                }
                assert forall|m: int| 0 <= m < self@.todos.len() implies has_card(
                    self@.cards,
                    #[trigger] self@.todos[m].card_id,
                ) by {
                    let m0 = if m < j {
                        m
                    } else {
                        m + 1
                    };
                    assert(self@.todos[m] == pre.todos[m0]);
                    assert(has_card(pre.cards, pre.todos[m0].card_id));
                }
            }
        }
        Ok(OkResponse { ok: true })
    }

    /// Deletes a todo with a fresh change-row id at the current time.
    pub fn delete_todo(&mut self, todo_id: String) -> (r: Result<OkResponse, AppError>)
        requires
            old(self)@.wf(),
        ensures
            final(self)@.wf(),
            match r {
                Ok(res) => res.ok && exists|log_id: Seq<char>, now: Seq<char>|
                    #[trigger] delete_todo_post(old(self)@, final(self)@, todo_id@, log_id, now),
                Err(e) => final(self)@ == old(self)@ && match e {
                    AppError::TodoNotFound(m) => m@ == todo_id@ && !has_todo(
                        old(self)@.todos,
                        todo_id@,
                    ),
                    _ => false,
                },
            },
    {
        let log_id = generate_id();
        let now = now_iso();
        let ghost lid = log_id@;
        let ghost nowv = now@;
        let r = self.delete_todo_at(todo_id, log_id, now);
        proof {
            if r is Ok {
                assert(delete_todo_post(old(self)@, self@, todo_id@, lid, nowv));
            }
        }
        r
    }
}

} // verus!
