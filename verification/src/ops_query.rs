//! Change-log reading.

use vstd::prelude::*;

use crate::errors::AppError;
use crate::models::ChangeLogDto;
use crate::models::ChangeLogDtoV;
use crate::models::PayloadDto;
use crate::models::change_dtos_view;
use crate::order::insert_by;
use crate::order::lemma_insert_by_at;
use crate::order::sort_stable;
use crate::store::ChangeKind;
use crate::store::ChangeRow;
use crate::store::ChangeV;
use crate::store::Store;
use crate::store::change_before;
use crate::store::change_desc;
use crate::store::change_desc_rel;
use crate::store::changes_view;
use crate::store::clone_opt;

verus! {

/// The change-log kind words as stored rows render them.
pub open spec fn kind_string(k: ChangeKind) -> Seq<char> {
    match k {
        ChangeKind::Created => "created"@,
        ChangeKind::Updated => "updated"@,
        ChangeKind::TodoAdded => "todo_added"@,
        ChangeKind::TodoUpdated => "todo_updated"@,
        ChangeKind::TodoDeleted => "todo_deleted"@,
        ChangeKind::Archived => "archived"@,
        ChangeKind::Unarchived => "unarchived"@,
    }
}

/// Renders a change kind as its word.
pub fn kind_str(k: &ChangeKind) -> (r: String)
    ensures
        r@ == kind_string(*k),
{
    match k {
        ChangeKind::Created => {
            proof {
                reveal_strlit("created");
            }
            String::from_str("created")
        },
        ChangeKind::Updated => {
            proof {
                reveal_strlit("updated");
            }
            String::from_str("updated")
        },
        ChangeKind::TodoAdded => {
            proof {
                reveal_strlit("todo_added");
            }
            String::from_str("todo_added")
        },
        ChangeKind::TodoUpdated => {
            proof {
                reveal_strlit("todo_updated");
            }
            String::from_str("todo_updated")
        },
        ChangeKind::TodoDeleted => {
            proof {
                reveal_strlit("todo_deleted");
            }
            String::from_str("todo_deleted")
        },
        ChangeKind::Archived => {
            proof {
                reveal_strlit("archived");
            }
            String::from_str("archived")
        },
        ChangeKind::Unarchived => {
            proof {
                reveal_strlit("unarchived");
            }
            String::from_str("unarchived")
        },
    }
}

/// How a change row renders as a transfer object.
pub open spec fn change_dto_of(c: ChangeV) -> ChangeLogDtoV {
    ChangeLogDtoV {
        id: c.id,
        card_id: c.card_id,
        kind: kind_string(c.kind),
        payload: c.payload,
        created_at: c.created_at,
    }
}

/// The transfer objects of a run of change rows.
pub open spec fn change_dtos_of(s: Seq<ChangeV>) -> Seq<ChangeLogDtoV> {
    s.map_values(|c: ChangeV| change_dto_of(c))
}

/// The reading order of the change log: newest creation time first, and
/// among equal timestamps the row written later first.
pub open spec fn spec_changes_ordered(changes: Seq<ChangeV>) -> Seq<ChangeV> {
    sort_stable(changes.reverse(), change_desc_rel())
}

/// What `recent_changes` returns for a given limit: the ordered log cut
/// to the limit, whole when the limit is negative (a request for no
/// limit) or larger than the log.
pub open spec fn spec_recent_changes(changes: Seq<ChangeV>, limit: int) -> Seq<ChangeLogDtoV> {
    let sorted = spec_changes_ordered(changes);
    let n: int = if limit < 0 || limit > sorted.len() {
        sorted.len() as int
    } else {
        limit
    };
    change_dtos_of(sorted.take(n))
}

/// Copies a payload record.
fn clone_payload(p: &PayloadDto) -> (r: PayloadDto)
    ensures
        r@ == p@,
{
    PayloadDto {
        title: clone_opt(&p.title),
        amount: clone_opt(&p.amount),
        todo_id: clone_opt(&p.todo_id),
        done: p.done,
        card_amount_change: clone_opt(&p.card_amount_change),
        reason: clone_opt(&p.reason),
    }
}

/// Copies a change row.
fn clone_change(c: &ChangeRow) -> (r: ChangeRow)
    ensures
        r@ == c@,
{
    ChangeRow {
        id: c.id.clone(),
        card_id: c.card_id.clone(),
        kind: c.kind,
        payload: clone_payload(&c.payload),
        created_at: c.created_at.clone(),
    }
}

/// How far a new change row sinks into a list in reading order.
fn scan_pos_change(rows: &Vec<ChangeRow>, c: &ChangeRow) -> (j: usize)
    ensures
        j <= rows@.len(),
        forall|m: int| 0 <= m < j ==> change_desc(#[trigger] rows@[m]@, c@),
        j == rows@.len() || !change_desc(rows@[j as int]@, c@),
{
    let mut j: usize = 0;
    while j < rows.len() && change_before(&rows[j], c)
        invariant
            j <= rows@.len(),
            forall|m: int| 0 <= m < j ==> change_desc(#[trigger] rows@[m]@, c@),
        decreases rows@.len() - j,
    {
        j = j + 1;
    }
    j
}

impl Store {
    /// The most recent change rows, newest first, at most `limit` of
    /// them (50 when the caller gives none; every row when the caller
    /// asks for a negative limit). Payloads come back as the structured
    /// records the mutations stored.
    pub fn recent_changes(&self, limit: Option<i32>) -> (r: Result<Vec<ChangeLogDto>, AppError>)
        ensures
            match r {
                Ok(list) => change_dtos_view(list@) == spec_recent_changes(
                    self@.changes,
                    match limit {
                        Some(l) => l as int,
                        None => 50,
                    },
                ),
                Err(_) => false,
            },
    {
        let lim: i32 = match limit {
            Some(l) => l,
            None => 50,
        };
        let n = self.changes.len();
        let mut rows: Vec<ChangeRow> = Vec::new();
        let mut k: usize = n;
        proof {
            assert(self@.changes.subrange(n as int, n as int).reverse() =~= Seq::<
                ChangeV,
            >::empty());
            assert(changes_view(rows@) =~= Seq::<ChangeV>::empty());
        }
        while k > 0
            invariant
                k <= n,
                n == self.changes.len(),
                changes_view(rows@) == sort_stable(
                    self@.changes.subrange(k as int, n as int).reverse(),
                    change_desc_rel(),
                ),
            decreases k,
        {
            k = k - 1;
            let ghost prev = self@.changes.subrange(k as int + 1, n as int).reverse();
            let ghost cur = self@.changes.subrange(k as int, n as int).reverse();
            let ghost cv = self@.changes[k as int];
            proof {
                assert(cur =~= prev.push(cv));
                assert(cur.drop_last() =~= prev);
                assert(cur.last() == cv);
            }
            let c = &self.changes[k];
            let j = scan_pos_change(&rows, c);
            let ghost old_rows = rows@;
            let cc = clone_change(c);
            rows.insert(j, cc);
            proof {
                let f = change_desc_rel();
                let sorted_pre = changes_view(old_rows);
                assert(sort_stable(cur, f) == insert_by(sorted_pre, cv, f));
                assert forall|m: int| 0 <= m < j implies f(#[trigger] sorted_pre[m], cv) by {
                    assert(sorted_pre[m] == old_rows[m]@);
                }
                if j < old_rows.len() {
                    assert(!f(sorted_pre[j as int], cv)) by {
                        assert(sorted_pre[j as int] == old_rows[j as int]@);
                    }
                }
                lemma_insert_by_at(sorted_pre, cv, f, j as int);
                assert(changes_view(rows@) =~= sorted_pre.take(j as int) + seq![cv]
                    + sorted_pre.skip(j as int)) by {
                    assert(rows@ == old_rows.insert(j as int, cc));
                    assert forall|m: int| 0 <= m < rows@.len() implies #[trigger] changes_view(
                        rows@,
                    )[m] == (sorted_pre.take(j as int) + seq![cv] + sorted_pre.skip(
                        j as int,
                    ))[m] by {
                        if m < j {
                            assert(rows@[m] == old_rows[m]);
                        } else if m == j {
                            assert(rows@[m] == cc);
                        } else {
                            assert(rows@[m] == old_rows[m - 1]);
                        }
                    }
                }
            }
        }
        proof {
            assert(self@.changes.subrange(0, n as int) =~= self@.changes);
        }
        // Cut to the limit and render.
        let take_n: usize = if lim < 0 {
            rows.len()
        } else if (lim as usize) < rows.len() {
            lim as usize
        } else {
            rows.len()
        };
        let ghost sorted = spec_changes_ordered(self@.changes);
        proof {
            assert(sorted.len() == rows@.len()) by {
                assert(changes_view(rows@).len() == rows@.len());
            }
        }
        let mut out: Vec<ChangeLogDto> = Vec::new();
        let mut m: usize = 0;
        proof {
            assert(change_dtos_view(out@) =~= change_dtos_of(sorted.take(0)));
        }
        while m < take_n
            invariant
                m <= take_n,
                take_n <= rows@.len(),
                changes_view(rows@) == sorted,
                change_dtos_view(out@) == change_dtos_of(sorted.take(m as int)),
            decreases take_n - m,
        {
            let c = &rows[m];
            let dto = ChangeLogDto {
                id: c.id.clone(),
                card_id: c.card_id.clone(),
                kind: kind_str(&c.kind),
                payload: clone_payload(&c.payload),
                created_at: c.created_at.clone(),
            };
            let ghost old_out = out@;
            out.push(dto);
            proof {
                assert(change_dtos_view(old_out).len() == old_out.len());
                assert(change_dtos_of(sorted.take(m as int)).len() == m);
                assert(old_out.len() == m);
                assert(change_dtos_view(out@) =~= change_dtos_of(sorted.take(m as int + 1))) by {
                    assert forall|p: int| 0 <= p < out@.len() implies #[trigger] change_dtos_view(
                        out@,
                    )[p] == change_dtos_of(sorted.take(m as int + 1))[p] by {
                        if p < m {
                            assert(out@[p] == old_out[p]);
                            assert(sorted.take(m as int + 1)[p] == sorted[p]);
                            assert(sorted.take(m as int)[p] == sorted[p]);
                            assert(change_dtos_view(old_out)[p] == change_dtos_of(
                                sorted.take(m as int),
                            )[p]);
                        } else {
                            assert(out@[p] == out@[out@.len() - 1]);
                            assert(sorted.take(m as int + 1)[p] == sorted[p]);
                            assert(sorted[p] == changes_view(rows@)[p]);
                            assert(changes_view(rows@)[p] == rows@[p]@);
                        }
                    }
                }
            }
            m = m + 1;
        }
        proof {
            let limi: int = match limit {
                Some(l) => l as int,
                None => 50,
            };
            let nn: int = if limi < 0 || limi > sorted.len() {
                sorted.len() as int
            } else {
                limi
            };
            assert(take_n as int == nn);
        }
        Ok(out)
    }
}

} // verus!
