//! The store: cards, todos and the change log, with the well-formedness
//! every operation preserves.
//!
//! All rows live in one `Store` value that operations borrow; each
//! operation either completes in full or hands the store back untouched,
//! which is the transactional guarantee the callers rely on.

use vstd::prelude::*;

use crate::amount::amount_string;
use crate::amount::format_amount;
use crate::models::CardDtoV;
use crate::models::PayloadDto;
use crate::models::PayloadDtoV;
use crate::models::TodoDtoV;
use crate::models::view_opt;

verus! {

/// A budget envelope. The balance may go negative; that is a deliberate
/// state, not an error.
pub struct Card {
    pub id: String,
    pub title: Option<String>,
    pub amount_micros: i64,
    pub locked_micros: Option<i64>,
    pub archived: bool,
    pub created_at: String,
    pub updated_at: String,
    pub archived_at: Option<String>,
}

pub struct CardV {
    pub id: Seq<char>,
    pub title: Option<Seq<char>>,
    pub amount: int,
    pub locked: Option<int>,
    pub archived: bool,
    pub created_at: Seq<char>,
    pub updated_at: Seq<char>,
    pub archived_at: Option<Seq<char>>,
}

impl View for Card {
    type V = CardV;

    open spec fn view(&self) -> CardV {
        CardV {
            id: self.id@,
            title: view_opt(self.title),
            amount: self.amount_micros as int,
            locked: match self.locked_micros {
                Some(l) => Some(l as int),
                None => None,
            },
            archived: self.archived,
            created_at: self.created_at@,
            updated_at: self.updated_at@,
            archived_at: view_opt(self.archived_at),
        }
    }
}

/// A line item owned by exactly one card.
pub struct Todo {
    pub id: String,
    pub card_id: String,
    pub title: String,
    pub amount_micros: Option<i64>,
    pub done: bool,
    pub scheduled_at: Option<String>,
    pub order_index: i32,
    pub created_at: String,
    pub updated_at: String,
}

pub struct TodoV {
    pub id: Seq<char>,
    pub card_id: Seq<char>,
    pub title: Seq<char>,
    pub amount: Option<int>,
    pub done: bool,
    pub scheduled_at: Option<Seq<char>>,
    pub order_index: int,
    pub created_at: Seq<char>,
    pub updated_at: Seq<char>,
}

impl View for Todo {
    type V = TodoV;

    open spec fn view(&self) -> TodoV {
        TodoV {
            id: self.id@,
            card_id: self.card_id@,
            title: self.title@,
            amount: match self.amount_micros {
                Some(a) => Some(a as int),
                None => None,
            },
            done: self.done,
            scheduled_at: view_opt(self.scheduled_at),
            order_index: self.order_index as int,
            created_at: self.created_at@,
            updated_at: self.updated_at@,
        }
    }
}

/// What a change-log row records.
#[derive(Debug, Clone, Copy, PartialEq, Eq, Structural)]
pub enum ChangeKind {
    Created,
    Updated,
    TodoAdded,
    TodoUpdated,
    TodoDeleted,
    Archived,
    Unarchived,
}

/// One row of the append-only audit trail.
pub struct ChangeRow {
    pub id: String,
    pub card_id: String,
    pub kind: ChangeKind,
    pub payload: PayloadDto,
    pub created_at: String,
}

pub struct ChangeV {
    pub id: Seq<char>,
    pub card_id: Seq<char>,
    pub kind: ChangeKind,
    pub payload: PayloadDtoV,
    pub created_at: Seq<char>,
}

impl View for ChangeRow {
    type V = ChangeV;

    open spec fn view(&self) -> ChangeV {
        ChangeV {
            id: self.id@,
            card_id: self.card_id@,
            kind: self.kind,
            payload: self.payload@,
            created_at: self.created_at@,
        }
    }
}

/// One row of the derived full-text projection: a card's title, or a
/// todo's title under its card.
pub struct EntryV {
    pub card_id: Seq<char>,
    pub todo_id: Option<Seq<char>>,
    pub card_title: Option<Seq<char>>,
    pub todo_title: Option<Seq<char>>,
}

pub open spec fn card_entry(c: CardV) -> EntryV {
    EntryV { card_id: c.id, todo_id: None, card_title: c.title, todo_title: None }
}

pub open spec fn todo_entry(t: TodoV) -> EntryV {
    EntryV { card_id: t.card_id, todo_id: Some(t.id), card_title: None, todo_title: Some(t.title) }
}

/// The store as the specifications see it.
pub struct StoreView {
    pub cards: Seq<CardV>,
    pub todos: Seq<TodoV>,
    pub changes: Seq<ChangeV>,
}

/// Some card carries this id.
pub open spec fn has_card(cards: Seq<CardV>, id: Seq<char>) -> bool {
    exists|i: int| 0 <= i < cards.len() && #[trigger] cards[i].id == id
}

/// The index of the card with this id; meaningful under `has_card` and
/// pinned down by id uniqueness.
pub open spec fn card_idx(cards: Seq<CardV>, id: Seq<char>) -> int {
    choose|i: int| 0 <= i < cards.len() && #[trigger] cards[i].id == id
}

/// Some todo carries this id.
pub open spec fn has_todo(todos: Seq<TodoV>, id: Seq<char>) -> bool {
    exists|i: int| 0 <= i < todos.len() && #[trigger] todos[i].id == id
}

pub open spec fn todo_idx(todos: Seq<TodoV>, id: Seq<char>) -> int {
    choose|i: int| 0 <= i < todos.len() && #[trigger] todos[i].id == id
}

impl StoreView {
    /// The invariants every operation preserves: ids are unique, every
    /// todo's card exists, a card is archived exactly when it carries an
    /// archival timestamp, and the card count stays within the count type.
    pub open spec fn wf(self) -> bool {
        &&& forall|i: int, j: int|
            0 <= i < j < self.cards.len() ==> #[trigger] self.cards[i].id
                != #[trigger] self.cards[j].id
        &&& forall|i: int, j: int|
            0 <= i < j < self.todos.len() ==> #[trigger] self.todos[i].id
                != #[trigger] self.todos[j].id
        &&& forall|i: int|
            0 <= i < self.todos.len() ==> has_card(self.cards, #[trigger] self.todos[i].card_id)
        &&& forall|i: int|
            0 <= i < self.cards.len() ==> (#[trigger] self.cards[i].archived <==> self.cards[
                i
            ].archived_at is Some)
        &&& self.cards.len() <= 0x7fff_ffff
    }

    /// The full-text projection: every card's title row, then every todo's
    /// title row. It is derived from the tables inside the same mutation
    /// that changes them, so it never lags a committed state.
    pub open spec fn search_index(self) -> Seq<EntryV> {
        self.cards.map_values(|c: CardV| card_entry(c)) + self.todos.map_values(
            |t: TodoV| todo_entry(t),
        )
    }
}

/// The store. One value of this type is the whole database.
pub struct Store {
    pub cards: Vec<Card>,
    pub todos: Vec<Todo>,
    pub changes: Vec<ChangeRow>,
}

/// The views of a card table's rows.
pub open spec fn cards_view(s: Seq<Card>) -> Seq<CardV> {
    s.map_values(|c: Card| c@)
}

/// The views of a todo table's rows.
pub open spec fn todos_view(s: Seq<Todo>) -> Seq<TodoV> {
    s.map_values(|t: Todo| t@)
}

/// The views of the change log's rows.
pub open spec fn changes_view(s: Seq<ChangeRow>) -> Seq<ChangeV> {
    s.map_values(|r: ChangeRow| r@)
}

impl View for Store {
    type V = StoreView;

    open spec fn view(&self) -> StoreView {
        StoreView {
            cards: cards_view(self.cards@),
            todos: todos_view(self.todos@),
            changes: changes_view(self.changes@),
        }
    }
}

/// How a card renders as a transfer object.
pub open spec fn card_dto_of(c: CardV) -> CardDtoV {
    CardDtoV {
        id: c.id,
        title: c.title,
        amount: amount_string(c.amount),
        locked_amount: match c.locked {
            Some(l) => Some(amount_string(l)),
            None => None,
        },
        archived: c.archived,
        created_at: c.created_at,
        updated_at: c.updated_at,
        archived_at: c.archived_at,
    }
}

/// How a todo renders as a transfer object.
pub open spec fn todo_dto_of(t: TodoV) -> TodoDtoV {
    TodoDtoV {
        id: t.id,
        card_id: t.card_id,
        title: t.title,
        amount: match t.amount {
            Some(a) => Some(amount_string(a)),
            None => None,
        },
        done: t.done,
        scheduled_at: t.scheduled_at,
        order_index: t.order_index,
        created_at: t.created_at,
        updated_at: t.updated_at,
    }
}

impl Store {
    /// An empty store: the tables exist and hold nothing.
    pub fn new() -> (r: Store)
        ensures
            r@.wf(),
            r@.cards.len() == 0,
            r@.todos.len() == 0,
            r@.changes.len() == 0,
    {
        let r = Store { cards: Vec::new(), todos: Vec::new(), changes: Vec::new() };
        proof {
            assert(r@.cards =~= Seq::<CardV>::empty());
            assert(r@.todos =~= Seq::<TodoV>::empty());
            assert(r@.changes =~= Seq::<ChangeV>::empty());
        }
        r
    }

    /// Index of the card with this id, scanning in table order.
    pub(crate) fn find_card(&self, id: &String) -> (r: Option<usize>)
        ensures
            match r {
                Some(i) => i < self@.cards.len() && self@.cards[i as int].id == id@,
                None => !has_card(self@.cards, id@),
            },
    {
        let n = self.cards.len();
        let mut i: usize = 0;
        while i < n
            invariant
                i <= n,
                n == self.cards.len(),
                n == self@.cards.len(),
                forall|k: int| 0 <= k < i ==> #[trigger] self@.cards[k].id != id@,
            decreases n - i,
        {
            if self.cards[i].id == *id {
                proof {
                    assert(self@.cards[i as int].id == id@);
                }
                return Some(i);
            }
            i = i + 1;
        }
        None
    }

    /// Index of the todo with this id, scanning in table order.
    pub(crate) fn find_todo(&self, id: &String) -> (r: Option<usize>)
        ensures
            match r {
                Some(i) => i < self@.todos.len() && self@.todos[i as int].id == id@,
                None => !has_todo(self@.todos, id@),
            },
    {
        let n = self.todos.len();
        let mut i: usize = 0;
        while i < n
            invariant
                i <= n,
                n == self.todos.len(),
                n == self@.todos.len(),
                forall|k: int| 0 <= k < i ==> #[trigger] self@.todos[k].id != id@,
            decreases n - i,
        {
            if self.todos[i].id == *id {
                proof {
                    assert(self@.todos[i as int].id == id@);
                }
                return Some(i);
            }
            i = i + 1;
        }
        None
    }
}

/// With unique card ids, the index any scan finds is the card's one index.
pub proof fn lemma_unique_card_idx(cards: Seq<CardV>, id: Seq<char>, i: int)
    requires
        forall|p: int, q: int|
            0 <= p < q < cards.len() ==> #[trigger] cards[p].id != #[trigger] cards[q].id,
        0 <= i < cards.len(),
        cards[i].id == id,
    ensures
        has_card(cards, id),
        card_idx(cards, id) == i,
{
    assert(has_card(cards, id));
    let c = card_idx(cards, id);
    if c < i {
        assert(cards[c].id != cards[i].id);
    } else if c > i {
        assert(cards[i].id != cards[c].id);
    }
}

/// With unique todo ids, the index any scan finds is the todo's one index.
pub proof fn lemma_unique_todo_idx(todos: Seq<TodoV>, id: Seq<char>, i: int)
    requires
        forall|p: int, q: int|
            0 <= p < q < todos.len() ==> #[trigger] todos[p].id != #[trigger] todos[q].id,
        0 <= i < todos.len(),
        todos[i].id == id,
    ensures
        has_todo(todos, id),
        todo_idx(todos, id) == i,
{
    assert(has_todo(todos, id));
    let c = todo_idx(todos, id);
    if c < i {
        assert(todos[c].id != todos[i].id);
    } else if c > i {
        assert(todos[i].id != todos[c].id);
    }
}

/// The cards still shown in the active list, in table order.
pub open spec fn active_cards(cards: Seq<CardV>) -> Seq<CardV>
    decreases cards.len(),
{
    if cards.len() == 0 {
        Seq::empty()
    } else {
        active_cards(cards.drop_last()) + if !cards.last().archived {
            seq![cards.last()]
        } else {
            Seq::empty()
        }
    }
}

/// The archived cards, in table order.
pub open spec fn archived_cards(cards: Seq<CardV>) -> Seq<CardV>
    decreases cards.len(),
{
    if cards.len() == 0 {
        Seq::empty()
    } else {
        archived_cards(cards.drop_last()) + if cards.last().archived {
            seq![cards.last()]
        } else {
            Seq::empty()
        }
    }
}

/// The todos owned by one card, in table order.
pub open spec fn todos_of(todos: Seq<TodoV>, cid: Seq<char>) -> Seq<TodoV>
    decreases todos.len(),
{
    if todos.len() == 0 {
        Seq::empty()
    } else {
        todos_of(todos.drop_last(), cid) + if todos.last().card_id == cid {
            seq![todos.last()]
        } else {
            Seq::empty()
        }
    }
}

/// The todos left after every todo of one card is removed.
pub open spec fn todos_without(todos: Seq<TodoV>, cid: Seq<char>) -> Seq<TodoV>
    decreases todos.len(),
{
    if todos.len() == 0 {
        Seq::empty()
    } else {
        todos_without(todos.drop_last(), cid) + if todos.last().card_id != cid {
            seq![todos.last()]
        } else {
            Seq::empty()
        }
    }
}

/// Removing one card's todos keeps rows of the original table, none of
/// the removed card's, and keeps their ids distinct.
pub proof fn lemma_todos_without_unique(todos: Seq<TodoV>, cid: Seq<char>)
    requires
        forall|p: int, q: int|
            0 <= p < q < todos.len() ==> #[trigger] todos[p].id != #[trigger] todos[q].id,
    ensures
        forall|p: int|
            0 <= p < todos_without(todos, cid).len() ==> ((#[trigger] todos_without(todos, cid)[p]).card_id
                != cid && exists|j: int|
                0 <= j < todos.len() && todos[j] == todos_without(todos, cid)[p]),
        forall|p: int, q: int|
            0 <= p < q < todos_without(todos, cid).len() ==> (#[trigger] todos_without(
                todos,
                cid,
            )[p]).id != (#[trigger] todos_without(todos, cid)[q]).id,
    decreases todos.len(),
{
    if todos.len() > 0 {
        let d = todos.drop_last();
        let res = todos_without(todos, cid);
        let dres = todos_without(d, cid);
        assert forall|p: int, q: int| 0 <= p < q < d.len() implies #[trigger] d[p].id
            != #[trigger] d[q].id by {
            assert(d[p] == todos[p]);
            assert(d[q] == todos[q]);
        }
        lemma_todos_without_unique(d, cid);
        assert forall|p: int| 0 <= p < res.len() implies ((#[trigger] res[p]).card_id != cid
            && exists|j: int| 0 <= j < todos.len() && todos[j] == res[p]) by {
            if p < dres.len() {
                assert(res[p] == dres[p]);
                let j = choose|j: int| 0 <= j < d.len() && d[j] == dres[p];
                assert(todos[j] == res[p]);
            } else {
                assert(res[p] == todos.last());
                assert(todos[todos.len() - 1] == res[p]);
            }
        }
        assert forall|p: int, q: int| 0 <= p < q < res.len() implies (#[trigger] res[p]).id
            != (#[trigger] res[q]).id by {
            if q < dres.len() {
                assert(res[p] == dres[p]);
                assert(res[q] == dres[q]);
            } else {
                assert(res[q] == todos.last());
                assert(res[p] == dres[p]);
                let j = choose|j: int| 0 <= j < d.len() && d[j] == dres[p];
                assert(todos[j] == res[p]);
                assert(todos[j].id != todos[todos.len() - 1].id);
            }
        }
    }
}

/// Replacing one card with a row that keeps its id (and matches the
/// archived flag to its timestamp) preserves the store's well-formedness.
pub proof fn lemma_wf_update_same_id(pre: StoreView, post: StoreView, i: int, c: CardV)
    requires
        pre.wf(),
        0 <= i < pre.cards.len(),
        post.cards == pre.cards.update(i, c),
        c.id == pre.cards[i].id,
        c.archived <==> c.archived_at is Some,
        post.todos == pre.todos,
    ensures
        post.wf(),
{
    assert forall|m: int| 0 <= m < post.cards.len() implies #[trigger] post.cards[m].id
        == pre.cards[m].id by {
        if m != i {
            assert(post.cards[m] == pre.cards[m]);
        }
    }
    assert forall|p: int, q: int| 0 <= p < q < post.cards.len() implies #[trigger] post.cards[p].id
        != #[trigger] post.cards[q].id by {
        assert(pre.cards[p].id != pre.cards[q].id);
    }
    assert forall|m: int| 0 <= m < post.todos.len() implies has_card(
        post.cards,
        #[trigger] post.todos[m].card_id,
    ) by {
        assert(has_card(pre.cards, pre.todos[m].card_id));
        let w = card_idx(pre.cards, pre.todos[m].card_id);
        assert(post.cards[w].id == pre.cards[w].id);
    }
    assert forall|m: int| 0 <= m < post.cards.len() implies (#[trigger] post.cards[m].archived
        <==> post.cards[m].archived_at is Some) by {
        if m != i {
            assert(post.cards[m] == pre.cards[m]);
        }
    }
}

/// In a list ordered by creation time descending, `y` may stay before a
/// newly inserted `x` when `x` was created no later than `y`.
pub open spec fn created_desc(y: CardV, x: CardV) -> bool {
    crate::text::lex_le(x.created_at, y.created_at)
}

/// An optional timestamp as a sort key: absent sorts as empty.
pub open spec fn opt_key(o: Option<Seq<char>>) -> Seq<char> {
    match o {
        Some(a) => a,
        None => Seq::empty(),
    }
}

/// A card's archival timestamp as a sort key.
pub open spec fn arch_key(c: CardV) -> Seq<char> {
    opt_key(c.archived_at)
}

/// Archived list order: archival time descending.
pub open spec fn archived_desc(y: CardV, x: CardV) -> bool {
    crate::text::lex_le(arch_key(x), arch_key(y))
}

/// Canonical todo order: order index ascending, then creation time
/// ascending.
pub open spec fn todo_order(y: TodoV, x: TodoV) -> bool {
    y.order_index < x.order_index || (y.order_index == x.order_index && crate::text::lex_le(
        y.created_at,
        x.created_at,
    ))
}

/// Change-log reading order: creation time descending; rows written later
/// come first among equal timestamps.
pub open spec fn change_desc(y: ChangeV, x: ChangeV) -> bool {
    crate::text::lex_le(x.created_at, y.created_at)
}

/// `created_desc` as a sorting relation.
pub open spec fn created_desc_rel() -> spec_fn(CardV, CardV) -> bool {
    |y: CardV, x: CardV| created_desc(y, x)
}

/// `archived_desc` as a sorting relation.
pub open spec fn archived_desc_rel() -> spec_fn(CardV, CardV) -> bool {
    |y: CardV, x: CardV| archived_desc(y, x)
}

/// `todo_order` as a sorting relation.
pub open spec fn todo_order_rel() -> spec_fn(TodoV, TodoV) -> bool {
    |y: TodoV, x: TodoV| todo_order(y, x)
}

/// `change_desc` as a sorting relation.
pub open spec fn change_desc_rel() -> spec_fn(ChangeV, ChangeV) -> bool {
    |y: ChangeV, x: ChangeV| change_desc(y, x)
}

/// `created_desc` admits any two cards in one order or the other, and
/// chains.
pub proof fn lemma_created_desc_order()
    ensures
        forall|a: CardV, b: CardV| #[trigger] created_desc(a, b) || #[trigger] created_desc(b, a),
        forall|a: CardV, b: CardV, c: CardV|
            #[trigger] created_desc(a, b) && #[trigger] created_desc(b, c) ==> created_desc(a, c),
{
    assert forall|a: CardV, b: CardV| #[trigger] created_desc(a, b) || #[trigger] created_desc(
        b,
        a,
    ) by {
        crate::text::lemma_lex_le_total(a.created_at, b.created_at);
    }
    assert forall|a: CardV, b: CardV, c: CardV|
        #[trigger] created_desc(a, b) && #[trigger] created_desc(b, c) implies created_desc(
        a,
        c,
    ) by {
        crate::text::lemma_lex_le_trans(c.created_at, b.created_at, a.created_at);
    }
}

/// `archived_desc` admits any two cards in one order or the other, and
/// chains.
pub proof fn lemma_archived_desc_order()
    ensures
        forall|a: CardV, b: CardV| #[trigger] archived_desc(a, b) || #[trigger] archived_desc(b, a),
        forall|a: CardV, b: CardV, c: CardV|
            #[trigger] archived_desc(a, b) && #[trigger] archived_desc(b, c) ==> archived_desc(
                a,
                c,
            ),
{
    assert forall|a: CardV, b: CardV| #[trigger] archived_desc(a, b) || #[trigger] archived_desc(
        b,
        a,
    ) by {
        crate::text::lemma_lex_le_total(arch_key(a), arch_key(b));
    }
    assert forall|a: CardV, b: CardV, c: CardV|
        #[trigger] archived_desc(a, b) && #[trigger] archived_desc(b, c) implies archived_desc(
        a,
        c,
    ) by {
        crate::text::lemma_lex_le_trans(arch_key(c), arch_key(b), arch_key(a));
    }
}

/// `todo_order` admits any two todos in one order or the other, and
/// chains.
pub proof fn lemma_todo_order_order()
    ensures
        forall|a: TodoV, b: TodoV| #[trigger] todo_order(a, b) || #[trigger] todo_order(b, a),
        forall|a: TodoV, b: TodoV, c: TodoV|
            #[trigger] todo_order(a, b) && #[trigger] todo_order(b, c) ==> todo_order(a, c),
{
    assert forall|a: TodoV, b: TodoV| #[trigger] todo_order(a, b) || #[trigger] todo_order(
        b,
        a,
    ) by {
        crate::text::lemma_lex_le_total(a.created_at, b.created_at);
    }
    assert forall|a: TodoV, b: TodoV, c: TodoV|
        #[trigger] todo_order(a, b) && #[trigger] todo_order(b, c) implies todo_order(a, c) by {
        if a.order_index == b.order_index && b.order_index == c.order_index {
            crate::text::lemma_lex_le_trans(a.created_at, b.created_at, c.created_at);
        }
    }
}

/// `change_desc` admits any two rows in one order or the other, and
/// chains.
pub proof fn lemma_change_desc_order()
    ensures
        forall|a: ChangeV, b: ChangeV| #[trigger] change_desc(a, b) || #[trigger] change_desc(b, a),
        forall|a: ChangeV, b: ChangeV, c: ChangeV|
            #[trigger] change_desc(a, b) && #[trigger] change_desc(b, c) ==> change_desc(a, c),
{
    assert forall|a: ChangeV, b: ChangeV| #[trigger] change_desc(a, b) || #[trigger] change_desc(
        b,
        a,
    ) by {
        crate::text::lemma_lex_le_total(a.created_at, b.created_at);
    }
    assert forall|a: ChangeV, b: ChangeV, c: ChangeV|
        #[trigger] change_desc(a, b) && #[trigger] change_desc(b, c) implies change_desc(
        a,
        c,
    ) by {
        crate::text::lemma_lex_le_trans(c.created_at, b.created_at, a.created_at);
    }
}

/// Decides `created_desc` on two card rows.
pub(crate) fn created_before(y: &Card, x: &Card) -> (r: bool)
    ensures
        r == created_desc(y@, x@),
{
    crate::text::str_le(x.created_at.as_str(), y.created_at.as_str())
}

/// Decides `archived_desc` on two archived card rows.
pub(crate) fn archived_before(y: &Card, x: &Card) -> (r: bool)
    requires
        y@.archived_at is Some,
        x@.archived_at is Some,
    ensures
        r == archived_desc(y@, x@),
{
    match (&x.archived_at, &y.archived_at) {
        (Some(a), Some(b)) => crate::text::str_le(a.as_str(), b.as_str()),
        _ => true,
    }
}

/// Decides `todo_order` on two todo rows.
pub(crate) fn todo_before(y: &Todo, x: &Todo) -> (r: bool)
    ensures
        r == todo_order(y@, x@),
{
    if y.order_index < x.order_index {
        true
    } else if y.order_index == x.order_index {
        crate::text::str_le(y.created_at.as_str(), x.created_at.as_str())
    } else {
        false
    }
}

/// Decides `change_desc` on two change rows.
pub(crate) fn change_before(y: &ChangeRow, x: &ChangeRow) -> (r: bool)
    ensures
        r == change_desc(y@, x@),
{
    crate::text::str_le(x.created_at.as_str(), y.created_at.as_str())
}

/// The transfer objects of a run of card rows.
pub open spec fn card_dtos_of(s: Seq<CardV>) -> Seq<crate::models::CardDtoV> {
    s.map_values(|c: CardV| card_dto_of(c))
}

/// The transfer objects of a run of todo rows.
pub open spec fn todo_dtos_of(s: Seq<TodoV>) -> Seq<TodoDtoV> {
    s.map_values(|t: TodoV| todo_dto_of(t))
}

/// Renders a card row as a transfer object.
pub(crate) fn card_to_dto(c: &Card) -> (r: crate::models::CardDto)
    ensures
        r@ == card_dto_of(c@),
{
    crate::models::CardDto {
        id: c.id.clone(),
        title: clone_opt(&c.title),
        amount: format_amount(c.amount_micros),
        locked_amount: match &c.locked_micros {
            Some(l) => Some(format_amount(*l)),
            None => None,
        },
        archived: c.archived,
        created_at: c.created_at.clone(),
        updated_at: c.updated_at.clone(),
        archived_at: clone_opt(&c.archived_at),
    }
}

/// Renders a todo row as a transfer object.
pub(crate) fn todo_to_dto(t: &Todo) -> (r: crate::models::TodoDto)
    ensures
        r@ == todo_dto_of(t@),
{
    crate::models::TodoDto {
        id: t.id.clone(),
        card_id: t.card_id.clone(),
        title: t.title.clone(),
        amount: match &t.amount_micros {
            Some(a) => Some(format_amount(*a)),
            None => None,
        },
        done: t.done,
        scheduled_at: clone_opt(&t.scheduled_at),
        order_index: t.order_index,
        created_at: t.created_at.clone(),
        updated_at: t.updated_at.clone(),
    }
}

/// Copies an optional string.
pub(crate) fn clone_opt(o: &Option<String>) -> (r: Option<String>)
    ensures
        view_opt(r) == view_opt(*o),
{
    match o {
        Some(s) => Some(s.clone()),
        None => None,
    }
}

/// Copies a card row field by field.
pub(crate) fn clone_card(c: &Card) -> (r: Card)
    ensures
        r@ == c@,
{
    Card {
        id: c.id.clone(),
        title: clone_opt(&c.title),
        amount_micros: c.amount_micros,
        locked_micros: c.locked_micros,
        archived: c.archived,
        created_at: c.created_at.clone(),
        updated_at: c.updated_at.clone(),
        archived_at: clone_opt(&c.archived_at),
    }
}

/// Copies a todo row field by field.
pub(crate) fn clone_todo(t: &Todo) -> (r: Todo)
    ensures
        r@ == t@,
{
    Todo {
        id: t.id.clone(),
        card_id: t.card_id.clone(),
        title: t.title.clone(),
        amount_micros: t.amount_micros,
        done: t.done,
        scheduled_at: clone_opt(&t.scheduled_at),
        order_index: t.order_index,
        created_at: t.created_at.clone(),
        updated_at: t.updated_at.clone(),
    }
}

} // verus!
