//! Transfer objects: the shapes operations hand back to the caller, with
//! every amount already rendered as a six-decimal-place string.

use vstd::prelude::*;

verus! {

/// The view of an optional piece of text.
pub open spec fn view_opt(o: Option<String>) -> Option<Seq<char>> {
    match o {
        Some(s) => Some(s@),
        None => None,
    }
}

#[derive(Debug)]
pub struct CardDto {
    pub id: String,
    pub title: Option<String>,
    pub amount: String,
    pub locked_amount: Option<String>,
    pub archived: bool,
    pub created_at: String,
    pub updated_at: String,
    pub archived_at: Option<String>,
}

pub struct CardDtoV {
    pub id: Seq<char>,
    pub title: Option<Seq<char>>,
    pub amount: Seq<char>,
    pub locked_amount: Option<Seq<char>>,
    pub archived: bool,
    pub created_at: Seq<char>,
    pub updated_at: Seq<char>,
    pub archived_at: Option<Seq<char>>,
}

impl View for CardDto {
    type V = CardDtoV;

    open spec fn view(&self) -> CardDtoV {
        CardDtoV {
            id: self.id@,
            title: view_opt(self.title),
            amount: self.amount@,
            locked_amount: view_opt(self.locked_amount),
            archived: self.archived,
            created_at: self.created_at@,
            updated_at: self.updated_at@,
            archived_at: view_opt(self.archived_at),
        }
    }
}

#[derive(Debug)]
pub struct TodoDto {
    pub id: String,
    pub card_id: String,
    pub title: String,
    pub amount: Option<String>,
    pub done: bool,
    pub scheduled_at: Option<String>,
    pub order_index: i32,
    pub created_at: String,
    pub updated_at: String,
}

pub struct TodoDtoV {
    pub id: Seq<char>,
    pub card_id: Seq<char>,
    pub title: Seq<char>,
    pub amount: Option<Seq<char>>,
    pub done: bool,
    pub scheduled_at: Option<Seq<char>>,
    pub order_index: int,
    pub created_at: Seq<char>,
    pub updated_at: Seq<char>,
}

impl View for TodoDto {
    type V = TodoDtoV;

    open spec fn view(&self) -> TodoDtoV {
        TodoDtoV {
            id: self.id@,
            card_id: self.card_id@,
            title: self.title@,
            amount: view_opt(self.amount),
            done: self.done,
            scheduled_at: view_opt(self.scheduled_at),
            order_index: self.order_index as int,
            created_at: self.created_at@,
            updated_at: self.updated_at@,
        }
    }
}

#[derive(Debug)]
pub struct CardWithTodosDto {
    pub id: String,
    pub title: Option<String>,
    pub amount: String,
    pub locked_amount: Option<String>,
    pub archived: bool,
    pub created_at: String,
    pub updated_at: String,
    pub archived_at: Option<String>,
    pub todos: Vec<TodoDto>,
}

pub struct CardWithTodosDtoV {
    pub card: CardDtoV,
    pub todos: Seq<TodoDtoV>,
}

impl View for CardWithTodosDto {
    type V = CardWithTodosDtoV;

    open spec fn view(&self) -> CardWithTodosDtoV {
        CardWithTodosDtoV {
            card: CardDtoV {
                id: self.id@,
                title: view_opt(self.title),
                amount: self.amount@,
                locked_amount: view_opt(self.locked_amount),
                archived: self.archived,
                created_at: self.created_at@,
                updated_at: self.updated_at@,
                archived_at: view_opt(self.archived_at),
            },
            todos: todo_dtos_view(self.todos@),
        }
    }
}

/// The structured record a change-log row captures: which fields each kind
/// of change fills is part of each operation's contract.
#[derive(Debug)]
pub struct PayloadDto {
    pub title: Option<String>,
    pub amount: Option<String>,
    pub todo_id: Option<String>,
    pub done: Option<bool>,
    pub card_amount_change: Option<String>,
    pub reason: Option<String>,
}

pub struct PayloadDtoV {
    pub title: Option<Seq<char>>,
    pub amount: Option<Seq<char>>,
    pub todo_id: Option<Seq<char>>,
    pub done: Option<bool>,
    pub card_amount_change: Option<Seq<char>>,
    pub reason: Option<Seq<char>>,
}

impl View for PayloadDto {
    type V = PayloadDtoV;

    open spec fn view(&self) -> PayloadDtoV {
        PayloadDtoV {
            title: view_opt(self.title),
            amount: view_opt(self.amount),
            todo_id: view_opt(self.todo_id),
            done: self.done,
            card_amount_change: view_opt(self.card_amount_change),
            reason: view_opt(self.reason),
        }
    }
}

#[derive(Debug)]
pub struct ChangeLogDto {
    pub id: String,
    pub card_id: String,
    pub kind: String,
    pub payload: PayloadDto,
    pub created_at: String,
}

pub struct ChangeLogDtoV {
    pub id: Seq<char>,
    pub card_id: Seq<char>,
    pub kind: Seq<char>,
    pub payload: PayloadDtoV,
    pub created_at: Seq<char>,
}

impl View for ChangeLogDto {
    type V = ChangeLogDtoV;

    open spec fn view(&self) -> ChangeLogDtoV {
        ChangeLogDtoV {
            id: self.id@,
            card_id: self.card_id@,
            kind: self.kind@,
            payload: self.payload@,
            created_at: self.created_at@,
        }
    }
}

#[derive(Debug)]
pub struct SearchResultDto {
    pub card_id: String,
    pub todo_id: Option<String>,
    pub card_title: Option<String>,
    pub todo_title: Option<String>,
    pub snippet: String,
}

pub struct SearchResultDtoV {
    pub card_id: Seq<char>,
    pub todo_id: Option<Seq<char>>,
    pub card_title: Option<Seq<char>>,
    pub todo_title: Option<Seq<char>>,
    pub snippet: Seq<char>,
}

impl View for SearchResultDto {
    type V = SearchResultDtoV;

    open spec fn view(&self) -> SearchResultDtoV {
        SearchResultDtoV {
            card_id: self.card_id@,
            todo_id: view_opt(self.todo_id),
            card_title: view_opt(self.card_title),
            todo_title: view_opt(self.todo_title),
            snippet: self.snippet@,
        }
    }
}

/// Adding a todo changes the owning card's balance, so both come back.
#[derive(Debug)]
pub struct AddTodoResult {
    pub todo: TodoDto,
    pub updated_card: CardDto,
}

#[derive(Debug)]
pub struct OkResponse {
    pub ok: bool,
}

#[derive(Debug)]
pub struct ArchiveResult {
    pub archived_count: i32,
}

/// The views of a list of card transfer objects.
pub open spec fn card_dtos_view(s: Seq<CardDto>) -> Seq<CardDtoV> {
    s.map_values(|d: CardDto| d@)
}

/// The views of a list of todo transfer objects.
pub open spec fn todo_dtos_view(s: Seq<TodoDto>) -> Seq<TodoDtoV> {
    s.map_values(|d: TodoDto| d@)
}

/// The views of a list of change-log transfer objects.
pub open spec fn change_dtos_view(s: Seq<ChangeLogDto>) -> Seq<ChangeLogDtoV> {
    s.map_values(|d: ChangeLogDto| d@)
}

/// The views of a list of search results.
pub open spec fn search_dtos_view(s: Seq<SearchResultDto>) -> Seq<SearchResultDtoV> {
    s.map_values(|d: SearchResultDto| d@)
}

} // verus!
