//! The weekly digest: what was learned, what was used, what fades.
use crate::engram::Engram;
use crate::rows::{columns_text, engram_columns};
use crate::sql::{
    limit_value, limit_view, plain, text_value, with1, with2, SqlView, Statement,
    StatementView,
};
use crate::tables::{
    append_sql, appended, counted, law_conditions_are_complementary, law_conditions_read, meets,
    quarantined_row, selects, typed_row, ByStrength, Cells, Condition,
};
use crate::text::{concat, concat3, dictionary_le};
use vstd::prelude::*;

verus! {

/// The memories of a week. The lists are cut to the limit that was asked for; the numbers are
/// exact.
#[derive(Debug)]
pub struct DigestWindow {
    /// Live memories that were made in the window, the strongest first.
    pub new: Vec<Engram>,
    /// Live memories from before the window that were retrieved in it, the strongest first.
    pub reinforced: Vec<Engram>,
    /// Live memories from before the window that were not retrieved in it, the weakest first.
    pub fading: Vec<Engram>,
    pub new_count: usize,
    pub reinforced_count: usize,
    pub fading_count: usize,
    pub live_total: usize,
    /// Quarantined memories of any age.
    pub quarantined_count: usize,
    /// Quarantined memories that were made in the window.
    pub quarantined_new_count: usize,
}

impl Default for DigestWindow {
    fn default() -> (r: Self)
        ensures
            r.new@.len() == 0,
            r.reinforced@.len() == 0,
            r.fading@.len() == 0,
            r.new_count == 0,
            r.reinforced_count == 0,
            r.fading_count == 0,
            r.live_total == 0,
            r.quarantined_count == 0,
            r.quarantined_new_count == 0,
    {
        DigestWindow {
            new: Vec::new(),
            reinforced: Vec::new(),
            fading: Vec::new(),
            new_count: 0,
            reinforced_count: 0,
            fading_count: 0,
            live_total: 0,
            quarantined_count: 0,
            quarantined_new_count: 0,
        }
    }
}

/// What the digest tells apart.
#[derive(Debug, Clone, Copy, PartialEq, Eq, Structural)]
pub enum DigestPart {
    New,
    Reinforced,
    Fading,
    Live,
    Quarantined,
    QuarantinedNew,
}

impl DigestPart {
    /// The conditions that the rows of the part meet.
    pub open spec fn conditions(self) -> Seq<Condition> {
        match self {
            DigestPart::New => seq![Condition::Live, Condition::CreatedSince],
            DigestPart::Reinforced => seq![
                Condition::Live,
                Condition::CreatedBefore,
                Condition::RetrievedSince,
            ],
            DigestPart::Fading => seq![
                Condition::Live,
                Condition::CreatedBefore,
                Condition::IdleSince,
            ],
            DigestPart::Live => seq![Condition::Live],
            DigestPart::Quarantined => seq![Condition::Quarantined],
            DigestPart::QuarantinedNew => seq![Condition::Quarantined, Condition::CreatedSince],
        }
    }

    fn list_conditions(self) -> (r: Vec<Condition>)
        ensures
            r@ == self.conditions(),
    {
        let mut v: Vec<Condition> = Vec::new();
        match self {
            DigestPart::New => {
                v.push(Condition::Live);
                v.push(Condition::CreatedSince);
            },
            DigestPart::Reinforced => {
                v.push(Condition::Live);
                v.push(Condition::CreatedBefore);
                v.push(Condition::RetrievedSince);
            },
            DigestPart::Fading => {
                v.push(Condition::Live);
                v.push(Condition::CreatedBefore);
                v.push(Condition::IdleSince);
            },
            DigestPart::Live => {
                v.push(Condition::Live);
            },
            DigestPart::Quarantined => {
                v.push(Condition::Quarantined);
            },
            DigestPart::QuarantinedNew => {
                v.push(Condition::Quarantined);
                v.push(Condition::CreatedSince);
            },
        }
        assert(v@ =~= self.conditions());
        v
    }

    /// Whether a row belongs to the part.
    pub open spec fn holds(self, row: Cells, cutoff: Seq<char>) -> bool {
        meets(row, self.conditions(), cutoff)
    }

    /// Whether the part depends on the window.
    pub open spec fn windowed(self) -> bool {
        self !is Live && self !is Quarantined
    }

    /// The query for the number of rows of the part.
    pub open spec fn count_query(self, cutoff: Seq<char>) -> StatementView {
        StatementView {
            sql: "SELECT COUNT(*) FROM engrams WHERE 1=1"@ + appended(
                self.conditions(),
                ""@,
                "?1"@,
            ),
            params: if self.windowed() {
                seq![SqlView::Text(cutoff)]
            } else {
                Seq::empty()
            },
        }
    }

    fn count(self, cutoff: &str) -> (r: Statement)
        ensures
            r@ == self.count_query(cutoff@),
    {
        let condition = append_sql(&self.list_conditions(), "", "?1");
        let sql = concat("SELECT COUNT(*) FROM engrams WHERE 1=1", condition.as_str());
        match self {
            DigestPart::Live | DigestPart::Quarantined => plain(sql.as_str()),
            _ => with1(sql.as_str(), text_value(cutoff)),
        }
    }

    /// The query for the engrams of the part, in an order.
    pub open spec fn list_query(
        self,
        cutoff: Seq<char>,
        order: ByStrength,
        limit: usize,
    ) -> StatementView {
        StatementView {
            sql: "SELECT "@ + engram_columns() + " FROM engrams WHERE 1=1"@ + appended(
                self.conditions(),
                ""@,
                "?2"@,
            ) + " ORDER BY "@ + order.text() + " LIMIT ?1"@,
            params: seq![limit_view(limit), SqlView::Text(cutoff)],
        }
    }

    fn list(self, cutoff: &str, order: ByStrength, limit: usize) -> (r: Statement)
        ensures
            r@ == self.list_query(cutoff@, order, limit),
    {
        let condition = append_sql(&self.list_conditions(), "", "?2");
        let head = concat3(
            "SELECT ",
            columns_text().as_str(),
            " FROM engrams WHERE 1=1",
        );
        let middle = concat3(head.as_str(), condition.as_str(), " ORDER BY ");
        let sql = concat3(middle.as_str(), order.sql(), " LIMIT ?1");
        with2(sql.as_str(), limit_value(limit), text_value(cutoff))
    }
}

/// The queries of a digest.
#[derive(Debug)]
pub struct DigestQueries {
    pub new: Statement,
    pub reinforced: Statement,
    pub fading: Statement,
    pub new_count: Statement,
    pub reinforced_count: Statement,
    pub fading_count: Statement,
    pub live_total: Statement,
    pub quarantined_count: Statement,
    pub quarantined_new_count: Statement,
}

/// The queries of a digest of what happened since a time.
pub fn digest_window(cutoff: &str, limit: usize) -> (r: DigestQueries)
    ensures
        r.new@ == DigestPart::New.list_query(cutoff@, ByStrength::StrongestFirst, limit),
        r.reinforced@ == DigestPart::Reinforced.list_query(
            cutoff@,
            ByStrength::StrongestFirst,
            limit,
        ),
        r.fading@ == DigestPart::Fading.list_query(cutoff@, ByStrength::WeakestFirst, limit),
        r.new_count@ == DigestPart::New.count_query(cutoff@),
        r.reinforced_count@ == DigestPart::Reinforced.count_query(cutoff@),
        r.fading_count@ == DigestPart::Fading.count_query(cutoff@),
        r.live_total@ == DigestPart::Live.count_query(cutoff@),
        r.quarantined_count@ == DigestPart::Quarantined.count_query(cutoff@),
        r.quarantined_new_count@ == DigestPart::QuarantinedNew.count_query(cutoff@),
{
    DigestQueries {
        new: DigestPart::New.list(cutoff, ByStrength::StrongestFirst, limit),
        reinforced: DigestPart::Reinforced.list(cutoff, ByStrength::StrongestFirst, limit),
        fading: DigestPart::Fading.list(cutoff, ByStrength::WeakestFirst, limit),
        new_count: DigestPart::New.count(cutoff),
        reinforced_count: DigestPart::Reinforced.count(cutoff),
        fading_count: DigestPart::Fading.count(cutoff),
        live_total: DigestPart::Live.count(cutoff),
        quarantined_count: DigestPart::Quarantined.count(cutoff),
        quarantined_new_count: DigestPart::QuarantinedNew.count(cutoff),
    }
}

/// The digest leaves no memory out and names none twice: every live memory is either new, or
/// reinforced, or fading; every other one is quarantined.
pub proof fn law_digest_partitions_the_vault(row: Cells, cutoff: Seq<char>)
    requires
        typed_row(row),
    ensures
        DigestPart::Live.holds(row, cutoff) <==> !quarantined_row(row),
        DigestPart::Quarantined.holds(row, cutoff) <==> quarantined_row(row),
        DigestPart::Live.holds(row, cutoff) <==> (DigestPart::New.holds(row, cutoff)
            || DigestPart::Reinforced.holds(row, cutoff) || DigestPart::Fading.holds(row, cutoff)),
        !(DigestPart::New.holds(row, cutoff) && DigestPart::Reinforced.holds(row, cutoff)),
        !(DigestPart::New.holds(row, cutoff) && DigestPart::Fading.holds(row, cutoff)),
        !(DigestPart::Reinforced.holds(row, cutoff) && DigestPart::Fading.holds(row, cutoff)),
        DigestPart::QuarantinedNew.holds(row, cutoff) ==> DigestPart::Quarantined.holds(
            row,
            cutoff,
        ),
{
    law_conditions_are_complementary(row, cutoff);
    let new = DigestPart::New.conditions();
    let reinforced = DigestPart::Reinforced.conditions();
    let fading = DigestPart::Fading.conditions();
    let later = DigestPart::QuarantinedNew.conditions();
    let live = DigestPart::Live.conditions();
    let quarantined = DigestPart::Quarantined.conditions();
    assert(meets(row, live, cutoff) <==> live[0].holds(row, cutoff));
    assert(meets(row, quarantined, cutoff) <==> quarantined[0].holds(row, cutoff));
    assert(meets(row, new, cutoff) <==> new[0].holds(row, cutoff) && new[1].holds(row, cutoff));
    assert(meets(row, reinforced, cutoff) <==> reinforced[0].holds(row, cutoff)
        && reinforced[1].holds(row, cutoff) && reinforced[2].holds(row, cutoff));
    assert(meets(row, fading, cutoff) <==> fading[0].holds(row, cutoff) && fading[1].holds(
        row,
        cutoff,
    ) && fading[2].holds(row, cutoff));
    assert(meets(row, later, cutoff) <==> later[0].holds(row, cutoff) && later[1].holds(
        row,
        cutoff,
    ));
}

/// The number of rows that belong to a part.
pub open spec fn part_count(rows: Seq<Cells>, part: DigestPart, cutoff: Seq<char>) -> nat {
    counted(rows, part.conditions(), cutoff)
}

/// The numbers of a digest add up: the new, the reinforced and the fading memories are the live
/// ones, and with the quarantined ones they are all.
pub proof fn law_digest_adds_up(rows: Seq<Cells>, cutoff: Seq<char>)
    requires
        forall|i: int| 0 <= i < rows.len() ==> typed_row(#[trigger] rows[i]),
    ensures
        part_count(rows, DigestPart::New, cutoff) + part_count(rows, DigestPart::Reinforced, cutoff)
            + part_count(rows, DigestPart::Fading, cutoff) == part_count(
            rows,
            DigestPart::Live,
            cutoff,
        ),
        part_count(rows, DigestPart::Live, cutoff) + part_count(
            rows,
            DigestPart::Quarantined,
            cutoff,
        ) == rows.len(),
        part_count(rows, DigestPart::QuarantinedNew, cutoff) <= part_count(
            rows,
            DigestPart::Quarantined,
            cutoff,
        ),
    decreases rows.len(),
{
    if rows.len() > 0 {
        let before = rows.drop_last();
        assert forall|i: int| 0 <= i < before.len() implies typed_row(#[trigger] before[i]) by {
            assert(before[i] == rows[i]);
        }
        law_digest_adds_up(before, cutoff);
        assert(typed_row(rows[rows.len() - 1]));
        law_digest_partitions_the_vault(rows.last(), cutoff);
    }
}

/// The lists of a digest: each holds as many memories as there are, up to the limit; none of them
/// is quarantined; no memory is in two lists; the new and the reinforced ones stand strongest
/// first, the fading ones weakest first.
pub proof fn law_digest_lists_are_disjoint(
    rows: Seq<Cells>,
    cutoff: Seq<char>,
    limit: nat,
    new: Seq<int>,
    reinforced: Seq<int>,
    fading: Seq<int>,
)
    requires
        forall|i: int| 0 <= i < rows.len() ==> typed_row(#[trigger] rows[i]),
        forall|i: int, j: int|
            0 <= i < j < rows.len() ==> #[trigger] rows[i]["id"@] != #[trigger] rows[j]["id"@],
        selects(
            rows,
            DigestPart::New.conditions(),
            cutoff,
            ByStrength::StrongestFirst,
            limit,
            new,
        ),
        selects(
            rows,
            DigestPart::Reinforced.conditions(),
            cutoff,
            ByStrength::StrongestFirst,
            limit,
            reinforced,
        ),
        selects(
            rows,
            DigestPart::Fading.conditions(),
            cutoff,
            ByStrength::WeakestFirst,
            limit,
            fading,
        ),
    ensures
        new.len() == shorter(limit, part_count(rows, DigestPart::New, cutoff)),
        reinforced.len() == shorter(limit, part_count(rows, DigestPart::Reinforced, cutoff)),
        fading.len() == shorter(limit, part_count(rows, DigestPart::Fading, cutoff)),
        forall|i: int| 0 <= i < new.len() ==> !quarantined_row(rows[#[trigger] new[i]]),
        forall|i: int|
            0 <= i < reinforced.len() ==> !quarantined_row(rows[#[trigger] reinforced[i]]),
        forall|i: int| 0 <= i < fading.len() ==> !quarantined_row(rows[#[trigger] fading[i]]),
        forall|i: int, j: int|
            0 <= i < new.len() && 0 <= j < reinforced.len() ==> rows[#[trigger] new[i]]["id"@]
                != rows[#[trigger] reinforced[j]]["id"@],
        forall|i: int, j: int|
            0 <= i < new.len() && 0 <= j < fading.len() ==> rows[#[trigger] new[i]]["id"@]
                != rows[#[trigger] fading[j]]["id"@],
        forall|i: int, j: int|
            0 <= i < reinforced.len() && 0 <= j < fading.len()
                ==> rows[#[trigger] reinforced[i]]["id"@] != rows[#[trigger] fading[j]]["id"@],
        forall|i: int, j: int|
            0 <= i < j < new.len() ==> ByStrength::StrongestFirst.admits(
                rows[#[trigger] new[i]],
                rows[#[trigger] new[j]],
            ),
        forall|i: int, j: int|
            0 <= i < j < reinforced.len() ==> ByStrength::StrongestFirst.admits(
                rows[#[trigger] reinforced[i]],
                rows[#[trigger] reinforced[j]],
            ),
        forall|i: int, j: int|
            0 <= i < j < fading.len() ==> ByStrength::WeakestFirst.admits(
                rows[#[trigger] fading[i]],
                rows[#[trigger] fading[j]],
            ),
{
    assert forall|k: int| 0 <= k < rows.len() implies {
        &&& !(DigestPart::New.holds(rows[k], cutoff) && DigestPart::Reinforced.holds(
            rows[k],
            cutoff,
        ))
        &&& !(DigestPart::New.holds(rows[k], cutoff) && DigestPart::Fading.holds(rows[k], cutoff))
        &&& !(DigestPart::Reinforced.holds(rows[k], cutoff) && DigestPart::Fading.holds(
            rows[k],
            cutoff,
        ))
        &&& DigestPart::New.holds(#[trigger] rows[k], cutoff) || DigestPart::Reinforced.holds(
            rows[k],
            cutoff,
        ) || DigestPart::Fading.holds(rows[k], cutoff) ==> !quarantined_row(rows[k])
    } by {
        law_digest_partitions_the_vault(rows[k], cutoff);
    }
    assert forall|i: int, j: int| 0 <= i < new.len() && 0 <= j < reinforced.len() implies rows[
        #[trigger] new[i]]["id"@] != rows[#[trigger] reinforced[j]]["id"@] by {
        let a = new[i];
        let b = reinforced[j];
        assert(DigestPart::New.holds(rows[a], cutoff) && DigestPart::Reinforced.holds(
            rows[b],
            cutoff,
        ));
        assert(a < b || b < a);
        assert(rows[a]["id"@] != rows[b]["id"@]);
    }
    assert forall|i: int, j: int| 0 <= i < new.len() && 0 <= j < fading.len() implies rows[
        #[trigger] new[i]]["id"@] != rows[#[trigger] fading[j]]["id"@] by {
        let a = new[i];
        let b = fading[j];
        assert(DigestPart::New.holds(rows[a], cutoff) && DigestPart::Fading.holds(rows[b], cutoff));
        assert(a < b || b < a);
        assert(rows[a]["id"@] != rows[b]["id"@]);
    }
    assert forall|i: int, j: int| 0 <= i < reinforced.len() && 0 <= j < fading.len() implies rows[
        #[trigger] reinforced[i]]["id"@] != rows[#[trigger] fading[j]]["id"@] by {
        let a = reinforced[i];
        let b = fading[j];
        assert(DigestPart::Reinforced.holds(rows[a], cutoff) && DigestPart::Fading.holds(
            rows[b],
            cutoff,
        ));
        assert(a < b || b < a);
        assert(rows[a]["id"@] != rows[b]["id"@]);
    }
}

/// The smaller of two numbers.
pub open spec fn shorter(a: nat, b: nat) -> nat {
    if b < a {
        b
    } else {
        a
    }
}

/// The parts of a digest by what a row holds: what is not quarantined is new if it was made at the
/// cutoff or later; else it is reinforced if it was retrieved at the cutoff or later, and fading
/// if it was not. What is quarantined is counted apart.
pub proof fn law_digest_parts_by_what_a_row_holds(row: Cells, cutoff: Seq<char>)
    requires
        typed_row(row),
    ensures
        ({
            let quarantined = row["imagined"@] == SqlView::Integer(1) && row["grounded"@]
                == SqlView::Integer(0);
            let new = dictionary_le(cutoff, row["created_at"@]->Text_0);
            let used = row["last_retrieved"@] is Text && dictionary_le(
                cutoff,
                row["last_retrieved"@]->Text_0,
            );
            &&& DigestPart::New.holds(row, cutoff) <==> !quarantined && new
            &&& DigestPart::Reinforced.holds(row, cutoff) <==> !quarantined && !new && used
            &&& DigestPart::Fading.holds(row, cutoff) <==> !quarantined && !new && !used
            &&& DigestPart::Live.holds(row, cutoff) <==> !quarantined
            &&& DigestPart::Quarantined.holds(row, cutoff) <==> quarantined
            &&& DigestPart::QuarantinedNew.holds(row, cutoff) <==> quarantined && new
        }),
{
    let of = |p: DigestPart| p.conditions();
    assert(DigestPart::New.holds(row, cutoff) <==> of(DigestPart::New)[0].holds(row, cutoff) && of(
        DigestPart::New,
    )[1].holds(row, cutoff));
    assert(DigestPart::Reinforced.holds(row, cutoff) <==> of(DigestPart::Reinforced)[0].holds(
        row,
        cutoff,
    ) && of(DigestPart::Reinforced)[1].holds(row, cutoff) && of(DigestPart::Reinforced)[2].holds(
        row,
        cutoff,
    ));
    assert(DigestPart::Fading.holds(row, cutoff) <==> of(DigestPart::Fading)[0].holds(row, cutoff)
        && of(DigestPart::Fading)[1].holds(row, cutoff) && of(DigestPart::Fading)[2].holds(
        row,
        cutoff,
    ));
    assert(DigestPart::Live.holds(row, cutoff) <==> of(DigestPart::Live)[0].holds(row, cutoff));
    assert(DigestPart::Quarantined.holds(row, cutoff) <==> of(DigestPart::Quarantined)[0].holds(
        row,
        cutoff,
    ));
    assert(DigestPart::QuarantinedNew.holds(row, cutoff) <==> of(DigestPart::QuarantinedNew)[0].holds(
        row,
        cutoff,
    ) && of(DigestPart::QuarantinedNew)[1].holds(row, cutoff));
}

proof fn lemma_conditions_appended(a: Condition, b: Condition, c: Condition, time: Seq<char>)
    ensures
        appended(seq![a], ""@, time) == " AND "@ + a.text(""@, time),
        appended(seq![a, b], ""@, time) == " AND "@ + a.text(""@, time) + " AND "@ + b.text(
            ""@,
            time,
        ),
        appended(seq![a, b, c], ""@, time) == " AND "@ + a.text(""@, time) + " AND "@ + b.text(
            ""@,
            time,
        ) + " AND "@ + c.text(""@, time),
{
    reveal_with_fuel(appended, 4);
    let none = Seq::<Condition>::empty();
    assert(seq![a].drop_last() =~= none);
    assert(seq![a, b].drop_last() =~= seq![a]);
    assert(seq![a, b, c].drop_last() =~= seq![a, b]);
    assert(appended(none, ""@, time) =~= Seq::empty());
    assert(appended(seq![a], ""@, time) =~= " AND "@ + a.text(""@, time));
}

/// What each part of a digest asks SQLite for: all of its conditions, with the cutoff as the
/// parameter; a list is cut to the limit.
pub proof fn law_digest_asks_for(cutoff: Seq<char>, limit: usize, order: ByStrength)
    ensures
        ({
            let live = " AND "@ + "NOT (imagined = 1 AND grounded = 0)"@;
            let held = " AND "@ + "imagined = 1 AND grounded = 0"@;
            let count = "SELECT COUNT(*) FROM engrams WHERE 1=1"@;
            let head = "SELECT "@ + engram_columns() + " FROM engrams WHERE 1=1"@;
            let tail = " ORDER BY "@ + (match order {
                ByStrength::StrongestFirst => "strength DESC"@,
                ByStrength::WeakestFirst => "strength ASC"@,
            }) + " LIMIT ?1"@;
            let new = |at: Seq<char>| live + " AND "@ + ("created_at >= "@ + at);
            let old = |at: Seq<char>| live + " AND "@ + ("created_at < "@ + at);
            let used = |at: Seq<char>| old(at) + " AND "@ + ("last_retrieved >= "@ + at);
            let idle = |at: Seq<char>|
                old(at) + " AND "@ + ("(last_retrieved IS NULL OR last_retrieved < "@ + at + ")"@);
            &&& DigestPart::New.count_query(cutoff) == (StatementView {
                sql: count + new("?1"@),
                params: seq![SqlView::Text(cutoff)],
            })
            &&& DigestPart::Reinforced.count_query(cutoff) == (StatementView {
                sql: count + used("?1"@),
                params: seq![SqlView::Text(cutoff)],
            })
            &&& DigestPart::Fading.count_query(cutoff) == (StatementView {
                sql: count + idle("?1"@),
                params: seq![SqlView::Text(cutoff)],
            })
            &&& DigestPart::Live.count_query(cutoff) == (StatementView {
                sql: count + live,
                params: Seq::empty(),
            })
            &&& DigestPart::Quarantined.count_query(cutoff) == (StatementView {
                sql: count + held,
                params: Seq::empty(),
            })
            &&& DigestPart::QuarantinedNew.count_query(cutoff) == (StatementView {
                sql: count + (held + " AND "@ + ("created_at >= "@ + "?1"@)),
                params: seq![SqlView::Text(cutoff)],
            })
            &&& DigestPart::New.list_query(cutoff, order, limit).params == seq![
                limit_view(limit),
                SqlView::Text(cutoff),
            ]
            &&& DigestPart::New.list_query(cutoff, order, limit).sql == head + new("?2"@)
                + " ORDER BY "@ + order.text() + " LIMIT ?1"@
            &&& DigestPart::Reinforced.list_query(cutoff, order, limit).sql == head + used("?2"@)
                + " ORDER BY "@ + order.text() + " LIMIT ?1"@
            &&& DigestPart::Fading.list_query(cutoff, order, limit).sql == head + idle("?2"@)
                + " ORDER BY "@ + order.text() + " LIMIT ?1"@
            &&& tail == " ORDER BY "@ + order.text() + " LIMIT ?1"@
        }),
{
    law_conditions_read();
    let (l, q) = (Condition::Live, Condition::Quarantined);
    let (n, b) = (Condition::CreatedSince, Condition::CreatedBefore);
    let (r, i) = (Condition::RetrievedSince, Condition::IdleSince);
    lemma_live_reads("?1"@);
    lemma_live_reads("?2"@);
    lemma_conditions_appended(l, b, r, "?1"@);
    lemma_conditions_appended(l, b, r, "?2"@);
    lemma_conditions_appended(l, b, i, "?1"@);
    lemma_conditions_appended(l, b, i, "?2"@);
    lemma_conditions_appended(l, n, n, "?1"@);
    lemma_conditions_appended(l, n, n, "?2"@);
    lemma_conditions_appended(q, n, n, "?1"@);
}

/// The conditions on quarantine compare with no time.
proof fn lemma_live_reads(time: Seq<char>)
    ensures
        Condition::Live.text(""@, time) == Condition::Live.text(""@, ""@),
        Condition::Quarantined.text(""@, time) == Condition::Quarantined.text(""@, ""@),
{
}

} // verus!
