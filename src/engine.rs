//! The line-oriented state machine that runs a compiled template over text.
use vstd::prelude::*;
use crate::pattern::{captures_of, chars_of, find_captures, group_of, opt_text, string_of};
use crate::template::{
    has_opt, has_option, LineAction, RecordAction, Target, Template, TemplateError, TemplateRule,
    ValueOption,
};
use crate::text::{char_lines, lines_of, split_lines};
use crate::value::{
    assigned, cell_is_empty, cell_views, cleared, copy_cell, copy_text, fresh, is_empty, record_views,
    slot_views, Cell, CellModel, Record, Slot, SlotModel,
};

verus! {

/// The state of a run between two input lines.
pub struct RunState {
    pub slots: Seq<SlotModel>,
    pub records: Seq<Seq<CellModel>>,
    pub state: int,
    pub halted: bool,
}

pub open spec fn fresh_slots(t: Template) -> Seq<SlotModel> {
    Seq::new(t.values@.len(), |i: int| fresh(t.values@[i]))
}

pub open spec fn clear_slots(t: Template, s: Seq<SlotModel>) -> Seq<SlotModel> {
    Seq::new(s.len(), |i: int| cleared(t.values@[i], s[i]))
}

/// The slots after a match with captures `caps`: each value whose group took
/// part takes in what it captured.
pub open spec fn apply_captures(t: Template, s: Seq<SlotModel>, caps: Map<Seq<char>, Seq<char>>) -> Seq<
    SlotModel,
> {
    Seq::new(
        s.len(),
        |i: int|
            if caps.contains_key(t.values@[i].name@) {
                assigned(t.values@[i], s[i], caps, caps[t.values@[i].name@])
            } else {
                s[i]
            },
    )
}

/// Whether a Required value is unset, which suppresses a record.
pub open spec fn blocked(t: Template, s: Seq<SlotModel>) -> bool {
    exists|i: int|
        0 <= i < s.len() && has_opt(t.values@[i], ValueOption::Required) && is_empty(
            #[trigger] s[i].current,
        )
}

pub open spec fn currents(s: Seq<SlotModel>) -> Seq<CellModel> {
    s.map_values(|x: SlotModel| x.current)
}

/// Whether column `i` is unset in every record from `j` on.
pub open spec fn empty_from(recs: Seq<Seq<CellModel>>, i: int, j: int) -> bool {
    forall|k: int| j <= k < recs.len() ==> is_empty(#[trigger] recs[k][i])
}

/// Whether the Fillup column `i` of row `j` takes the value of the new
/// record `rec`.
pub open spec fn fills(t: Template, recs: Seq<Seq<CellModel>>, rec: Seq<CellModel>, i: int, j: int) -> bool {
    &&& has_opt(t.values@[i], ValueOption::Fillup)
    &&& !is_empty(rec[i])
    &&& empty_from(recs, i, j)
}

/// The earlier records once the Fillup columns below `n` of the new record
/// `rec` have been copied up into the trailing run of records that lack them.
pub open spec fn backfill(t: Template, recs: Seq<Seq<CellModel>>, rec: Seq<CellModel>, n: int) -> Seq<
    Seq<CellModel>,
> {
    Seq::new(
        recs.len(),
        |j: int|
            Seq::new(
                recs[j].len(),
                |i: int|
                    if i < n && fills(t, recs, rec, i, j) {
                        rec[i]
                    } else {
                        recs[j][i]
                    },
            ),
    )
}

/// A `Record` action: slots and records afterwards.
pub open spec fn emit(t: Template, s: Seq<SlotModel>, recs: Seq<Seq<CellModel>>) -> (
    Seq<SlotModel>,
    Seq<Seq<CellModel>>,
) {
    if blocked(t, s) {
        (clear_slots(t, s), recs)
    } else {
        let rec = currents(s);
        (clear_slots(t, s), backfill(t, recs, rec, t.values@.len() as int).push(rec))
    }
}

pub open spec fn record_op(t: Template, op: RecordAction, st: RunState) -> RunState {
    match op {
        RecordAction::NoRecord => st,
        RecordAction::Clear => RunState { slots: clear_slots(t, st.slots), ..st },
        RecordAction::ClearAll => RunState { slots: fresh_slots(t), ..st },
        RecordAction::Record => {
            let e = emit(t, st.slots, st.records);
            RunState { slots: e.0, records: e.1, ..st }
        },
    }
}

/// Whether some value holds anything.
pub open spec fn pending(s: Seq<SlotModel>) -> bool {
    exists|i: int| 0 <= i < s.len() && !is_empty(#[trigger] s[i].current)
}

/// The end-of-input flush: a `Record` and a `ClearAll`, unless a state
/// named `EOF` is declared or nothing is pending. A declared `EOF` state
/// takes the place of this implicit record: at the end of input there is no
/// line left for its rules to match, so they emit nothing.
pub open spec fn flush(t: Template, st: RunState) -> RunState {
    if !t.has_eof && pending(st.slots) {
        let e = emit(t, st.slots, st.records);
        RunState { slots: fresh_slots(t), records: e.1, ..st }
    } else {
        st
    }
}

pub open spec fn move_to(t: Template, st: RunState, target: Target) -> RunState {
    match target {
        Target::Stay => st,
        Target::State(j) => RunState { state: j as int, ..st },
        Target::End => RunState { halted: true, ..st },
        Target::Eof => RunState { halted: true, ..flush(t, st) },
    }
}

pub open spec fn rule_count(t: Template, st: RunState) -> int {
    if 0 <= st.state < t.states@.len() {
        t.states@[st.state].rules@.len() as int
    } else {
        0
    }
}

/// Trying the rules of the current state from rule `k` on `line`, the
/// `n`-th line of input: the next state, or the message of an `Error`
/// action with the line number.
///
/// After a `Continue` rule, matching goes on with the rule that follows it.
/// Such a rule never changes state, so starting over from the first rule
/// would match the same rule on the same line again, without end.
pub open spec fn try_rules(t: Template, st: RunState, line: Seq<char>, k: int, n: int) -> Result<
    RunState,
    (Seq<char>, int),
>
    decreases rule_count(t, st) - k,
    when k >= 0
{
    if k >= rule_count(t, st) {
        Ok(st)
    } else {
        let rule = t.states@[st.state].rules@[k];
        match captures_of(rule.pattern.source(), line) {
            None => try_rules(t, st, line, k + 1, n),
            Some(caps) => {
                let st1 = RunState { slots: apply_captures(t, st.slots, caps), ..st };
                let st2 = record_op(t, rule.record_op, st1);
                match rule.line_op {
                    LineAction::Error(m) => Err((m@, n)),
                    LineAction::Continue => try_rules(t, st2, line, k + 1, n),
                    LineAction::Next => Ok(move_to(t, st2, rule.target)),
                }
            },
        }
    }
}

pub open spec fn initial(t: Template) -> RunState {
    RunState { slots: fresh_slots(t), records: Seq::empty(), state: 0, halted: false }
}

/// The run over the first `n` lines.
pub open spec fn run_prefix(t: Template, lines: Seq<Seq<char>>, n: int) -> Result<
    RunState,
    (Seq<char>, int),
>
    decreases n,
{
    if n <= 0 {
        Ok(initial(t))
    } else {
        match run_prefix(t, lines, n - 1) {
            Err(e) => Err(e),
            Ok(st) => if st.halted {
                Ok(st)
            } else {
                try_rules(t, st, lines[n - 1], 0, n)
            },
        }
    }
}

/// The records that running `t` over `input` yields, or the message and
/// line number of the `Error` action that stopped it.
pub open spec fn run_spec(t: Template, input: Seq<char>) -> Result<Seq<Seq<CellModel>>, (Seq<char>, int)> {
    let lines = lines_of(input);
    match run_prefix(t, lines, lines.len() as int) {
        Err(e) => Err(e),
        Ok(st) => Ok(
            if st.halted {
                st.records
            } else {
                flush(t, st).records
            },
        ),
    }
}

struct Machine {
    slots: Vec<Slot>,
    records: Vec<Record>,
    state: usize,
    halted: bool,
}

impl View for Machine {
    type V = RunState;

    closed spec fn view(&self) -> RunState {
        RunState {
            slots: slot_views(self.slots@),
            records: record_views(self.records@),
            state: self.state as int,
            halted: self.halted,
        }
    }
}

fn copy_slot(s: &Slot) -> (r: Slot)
    ensures
        r@ == s@,
{
    Slot { current: copy_cell(&s.current), carry: copy_cell(&s.carry) }
}

fn fresh_slot_vec(t: &Template) -> (r: Vec<Slot>)
    ensures
        r@.len() == t.values@.len(),
        slot_views(r@) == fresh_slots(*t),
{
    let mut out: Vec<Slot> = Vec::new();
    let mut i: usize = 0;
    while i < t.values.len()
        invariant
            i <= t.values@.len(),
            out@.len() == i,
            forall|j: int| 0 <= j < i ==> (#[trigger] out@[j])@ == fresh(t.values@[j]),
        decreases t.values@.len() - i,
    {
        out.push(Slot::fresh(&t.values[i]));
        i = i + 1;
    }
    assert(slot_views(out@) =~= fresh_slots(*t));
    out
}

impl Machine {
    closed spec fn inv(&self, t: Template) -> bool {
        &&& t.wf()
        &&& self.slots@.len() == t.values@.len()
        &&& self.state < t.states@.len()
        &&& forall|j: int|
            0 <= j < self.records@.len() ==> (#[trigger] self.records@[j]).values@.len()
                == t.values@.len()
    }

    proof fn lemma_views(&self, t: Template)
        requires
            self.inv(t),
        ensures
            self@.slots.len() == t.values@.len(),
            0 <= self@.state < t.states@.len(),
            forall|j: int| 0 <= j < self@.records.len() ==> (#[trigger] self@.records[j]).len() == t.values@.len(),
    {
        assert forall|j: int| 0 <= j < self@.records.len() implies (#[trigger] self@.records[j]).len() == t.values@.len() by {
            assert(self.records@[j].values@.len() == t.values@.len());
        }
    }

    fn new(t: &Template) -> (r: Machine)
        requires
            t.wf(),
        ensures
            r.inv(*t),
            r@ == initial(*t),
    {
        let r = Machine { slots: fresh_slot_vec(t), records: Vec::new(), state: 0, halted: false };
        assert(record_views(r.records@) =~= Seq::empty());
        r
    }

    fn clear(&mut self, t: &Template)
        requires
            old(self).inv(*t),
        ensures
            final(self).inv(*t),
            final(self)@ == (RunState { slots: clear_slots(*t, old(self)@.slots), ..old(self)@ }),
    {
        let ghost s0 = self@.slots;
        let mut i: usize = 0;
        while i < self.slots.len()
            invariant
                self.inv(*t),
                i <= self.slots@.len(),
                s0.len() == self.slots@.len(),
                forall|j: int| 0 <= j < i ==> (#[trigger] self.slots@[j])@ == cleared(t.values@[j], s0[j]),
                forall|j: int| i <= j < self.slots@.len() ==> (#[trigger] self.slots@[j])@ == s0[j],
                self.records@ == old(self).records@,
                self.state == old(self).state,
                self.halted == old(self).halted,
            decreases self.slots@.len() - i,
        {
            let mut s = copy_slot(&self.slots[i]);
            s.on_clear(&t.values[i]);
            self.slots.set(i, s);
            i = i + 1;
        }
        assert(slot_views(self.slots@) =~= clear_slots(*t, s0));
    }

    fn clear_all(&mut self, t: &Template)
        requires
            old(self).inv(*t),
        ensures
            final(self).inv(*t),
            final(self)@ == (RunState { slots: fresh_slots(*t), ..old(self)@ }),
    {
        self.slots = fresh_slot_vec(t);
    }

    /// Copies the Fillup columns of the record just built into the trailing
    /// run of earlier records that lack them.
    fn backfill(&mut self, t: &Template, rec: &Vec<Cell>)
        requires
            old(self).inv(*t),
            rec@.len() == t.values@.len(),
        ensures
            final(self).inv(*t),
            final(self)@ == (RunState {
                records: backfill(*t, old(self)@.records, cell_views(rec@), t.values@.len() as int),
                ..old(self)@
            }),
    {
        let ghost r0 = self@.records;
        let ghost rv = cell_views(rec@);
        proof {
            self.lemma_views(*t);
            assert forall|j: int| 0 <= j < r0.len() implies #[trigger] backfill(*t, r0, rv, 0)[j] =~= r0[j] by {}
            assert(backfill(*t, r0, rv, 0) =~= r0);
        }
        let mut i: usize = 0;
        while i < t.values.len()
            invariant
                self.inv(*t),
                i <= t.values@.len(),
                rec@.len() == t.values@.len(),
                rv == cell_views(rec@),
                self@.records == backfill(*t, r0, rv, i as int),
                self@.slots == old(self)@.slots,
                self@.state == old(self)@.state,
                self@.halted == old(self)@.halted,
                forall|j: int| 0 <= j < r0.len() ==> (#[trigger] r0[j]).len() == t.values@.len(),
            decreases t.values@.len() - i,
        {
            self.backfill_column(t, rec, i, Ghost(r0));
            i = i + 1;
        }
    }

    fn backfill_column(&mut self, t: &Template, rec: &Vec<Cell>, i: usize, Ghost(r0): Ghost<Seq<Seq<CellModel>>>)
        requires
            old(self).inv(*t),
            i < t.values@.len(),
            rec@.len() == t.values@.len(),
            old(self)@.records == backfill(*t, r0, cell_views(rec@), i as int),
            forall|j: int| 0 <= j < r0.len() ==> (#[trigger] r0[j]).len() == t.values@.len(),
        ensures
            final(self).inv(*t),
            final(self)@ == (RunState {
                records: backfill(*t, r0, cell_views(rec@), i + 1),
                ..old(self)@
            }),
    {
        let ghost rv = cell_views(rec@);
        let ghost cur = self@.records;
        proof {
            self.lemma_views(*t);
        }
        if !has_option(&t.values[i], ValueOption::Fillup) || cell_is_empty(&rec[i]) {
            assert forall|j: int| 0 <= j < r0.len() implies #[trigger] backfill(*t, r0, rv, i + 1)[j] =~= backfill(*t, r0, rv, i as int)[j] by {}
            assert(backfill(*t, r0, rv, i + 1) =~= backfill(*t, r0, rv, i as int));
            return;
        }
        let mut j: usize = self.records.len();
        let mut stop = false;
        while j > 0 && !stop
            invariant
                stop ==> j > 0 && !is_empty(r0[j - 1][i as int]),
                self.inv(*t),
                j <= self.records@.len(),
                i < t.values@.len(),
                rec@.len() == t.values@.len(),
                rv == cell_views(rec@),
                has_opt(t.values@[i as int], ValueOption::Fillup),
                !is_empty(rv[i as int]),
                cur == backfill(*t, r0, rv, i as int),
                forall|j: int| 0 <= j < r0.len() ==> (#[trigger] r0[j]).len() == t.values@.len(),
                self@.records.len() == r0.len(),
                self@.slots == old(self)@.slots,
                self@.state == old(self)@.state,
                self@.halted == old(self)@.halted,
                empty_from(r0, i as int, j as int),
                forall|r: int, c: int| 0 <= r < r0.len() && 0 <= c < t.values@.len() && c != i
                    ==> #[trigger] self@.records[r][c] == cur[r][c],
                forall|r: int| 0 <= r < j ==> #[trigger] self@.records[r][i as int] == r0[r][i as int],
                forall|r: int| j <= r < r0.len() ==> #[trigger] self@.records[r][i as int] == rv[i as int],
                forall|r: int| 0 <= r < r0.len() ==> (#[trigger] self@.records[r]).len() == t.values@.len(),
            decreases j + (if stop { 0int } else { 1int }),
        {
            proof {
                self.lemma_views(*t);
                assert(self@.records[j - 1] == cell_views(self.records@[j - 1].values@));
                assert(self@.records[j - 1][i as int] == self.records@[j - 1].values@[i as int]@);
            }
            if !cell_is_empty(&self.records[j - 1].values[i]) {
                stop = true;
                continue;
            }
            let ghost before = self@.records;
            let mut row = Record { values: Vec::new() };
            let mut c: usize = 0;
            while c < self.records[j - 1].values.len()
                invariant
                    self.inv(*t),
                    0 < j <= self.records@.len(),
                    c <= self.records@[j - 1].values@.len(),
                    row.values@.len() == c,
                    rec@.len() == t.values@.len(),
                    i < t.values@.len(),
                    forall|k: int| 0 <= k < c ==> (#[trigger] row.values@[k])@ == (if k == i {
                        rec@[i as int]@
                    } else {
                        self.records@[j - 1].values@[k]@
                    }),
                decreases self.records@[j - 1].values@.len() - c,
            {
                if c == i {
                    row.values.push(copy_cell(&rec[i]));
                } else {
                    row.values.push(copy_cell(&self.records[j - 1].values[c]));
                }
                c = c + 1;
            }
            self.records.set(j - 1, row);
            j = j - 1;
            proof {
                assert(self@.records[j as int] == cell_views(row.values@));
                assert forall|r: int| 0 <= r < r0.len() implies (#[trigger] self@.records[r]).len() == t.values@.len() by {
                    if r != j {
                        assert(self@.records[r] == before[r]);
                    }
                }
                assert forall|r: int, c: int| 0 <= r < r0.len() && 0 <= c < t.values@.len() && c != i
                    implies #[trigger] self@.records[r][c] == cur[r][c] by {
                    if r != j {
                        assert(self@.records[r] == before[r]);
                    } else {
                        assert(self@.records[r][c] == row.values@[c]@);
                        assert(before[r][c] == cur[r][c]);
                    }
                }
                assert forall|r: int| j <= r < r0.len() implies #[trigger] self@.records[r][i as int] == rv[i as int] by {
                    if r != j {
                        assert(self@.records[r] == before[r]);
                    } else {
                        assert(self@.records[r][i as int] == row.values@[i as int]@);
                    }
                }
                assert forall|r: int| 0 <= r < j implies #[trigger] self@.records[r][i as int] == r0[r][i as int] by {
                    assert(self@.records[r] == before[r]);
                }
                // the emptied cell was empty in r0 too: column i of cur is that of r0
                assert(before[j as int][i as int] == cur[j as int][i as int]);
                assert(cur[j as int][i as int] == r0[j as int][i as int]);
                assert forall|k: int| j <= k < r0.len() implies is_empty(#[trigger] r0[k][i as int]) by {
                    if k == j {
                    } else {
                        assert(empty_from(r0, i as int, j + 1));
                    }
                }
            }
        }
        proof {
            let target = backfill(*t, r0, rv, i + 1);
            assert forall|r: int| 0 <= r < r0.len() implies #[trigger] self@.records[r] =~= target[r] by {
                assert forall|c: int| 0 <= c < t.values@.len() implies self@.records[r][c] == target[r][c] by {
                    if c != i {
                        assert(self@.records[r][c] == cur[r][c]);
                    } else if r >= j {
                        assert(fills(*t, r0, rv, c, r));
                    } else {
                        assert(!is_empty(r0[j - 1][c]));
                    }
                }
            }
            assert(self@.records =~= target);
        }
    }

    fn emit(&mut self, t: &Template)
        requires
            old(self).inv(*t),
        ensures
            final(self).inv(*t),
            final(self)@ == (RunState {
                slots: emit(*t, old(self)@.slots, old(self)@.records).0,
                records: emit(*t, old(self)@.slots, old(self)@.records).1,
                ..old(self)@
            }),
    {
        let ghost s0 = self@.slots;
        let mut stop = false;
        let mut i: usize = 0;
        while i < self.slots.len()
            invariant
                self.inv(*t),
                i <= self.slots@.len(),
                s0 == self@.slots,
                stop == exists|j: int|
                    0 <= j < i && has_opt(t.values@[j], ValueOption::Required) && is_empty(
                        #[trigger] s0[j].current,
                    ),
            decreases self.slots@.len() - i,
        {
            assert(s0[i as int].current == self.slots@[i as int].current@);
            if has_option(&t.values[i], ValueOption::Required) && cell_is_empty(
                &self.slots[i].current,
            ) {
                stop = true;
            }
            i = i + 1;
        }
        if !stop {
            let mut rec: Vec<Cell> = Vec::new();
            let mut i: usize = 0;
            while i < self.slots.len()
                invariant
                    self.inv(*t),
                    i <= self.slots@.len(),
                    s0 == self@.slots,
                    rec@.len() == i,
                    forall|j: int| 0 <= j < i ==> (#[trigger] rec@[j])@ == s0[j].current,
                decreases self.slots@.len() - i,
            {
                rec.push(copy_cell(&self.slots[i].current));
                i = i + 1;
            }
            assert(cell_views(rec@) =~= currents(s0));
            self.backfill(t, &rec);
            let ghost before = self@.records;
            self.records.push(Record { values: rec });
            proof {
                assert(record_views(self.records@) =~= before.push(currents(s0)));
            }
        }
        self.clear(t);
    }

    fn any_pending(&self, t: &Template) -> (r: bool)
        requires
            self.inv(*t),
        ensures
            r == pending(self@.slots),
    {
        let mut i: usize = 0;
        while i < self.slots.len()
            invariant
                self.inv(*t),
                i <= self.slots@.len(),
                forall|j: int| 0 <= j < i ==> is_empty(#[trigger] self@.slots[j].current),
            decreases self.slots@.len() - i,
        {
            assert(self@.slots[i as int].current == self.slots@[i as int].current@);
            if !cell_is_empty(&self.slots[i].current) {
                return true;
            }
            i = i + 1;
        }
        false
    }

    fn flush(&mut self, t: &Template)
        requires
            old(self).inv(*t),
        ensures
            final(self).inv(*t),
            final(self)@ == flush(*t, old(self)@),
    {
        if !t.has_eof && self.any_pending(t) {
            self.emit(t);
            self.clear_all(t);
        }
    }

    fn record_op(&mut self, t: &Template, op: RecordAction)
        requires
            old(self).inv(*t),
        ensures
            final(self).inv(*t),
            final(self)@ == record_op(*t, op, old(self)@),
    {
        match op {
            RecordAction::NoRecord => {},
            RecordAction::Clear => self.clear(t),
            RecordAction::ClearAll => self.clear_all(t),
            RecordAction::Record => self.emit(t),
        }
    }

    fn move_to(&mut self, t: &Template, target: Target)
        requires
            old(self).inv(*t),
            target matches Target::State(j) ==> j < t.states@.len(),
        ensures
            final(self).inv(*t),
            final(self)@ == move_to(*t, old(self)@, target),
    {
        match target {
            Target::Stay => {},
            Target::State(j) => self.state = j,
            Target::End => self.halted = true,
            Target::Eof => {
                self.flush(t);
                self.halted = true;
            },
        }
    }

    /// Lets every value whose group took part in the match of `rule` on
    /// `line` take in what it captured; `caps` holds, per value, that text.
    fn apply_captures(
        &mut self,
        t: &Template,
        rule: &TemplateRule,
        line: &String,
        caps: &Vec<Option<String>>,
    )
        requires
            old(self).inv(*t),
            captures_of(rule.pattern.source(), line@) is Some,
            caps@.len() == t.values@.len(),
            forall|i: int|
                0 <= i < caps@.len() ==> opt_text(#[trigger] caps@[i]) == group_of(
                    captures_of(rule.pattern.source(), line@).unwrap(),
                    t.names@[i]@,
                ),
        ensures
            final(self).inv(*t),
            final(self)@ == (RunState {
                slots: apply_captures(
                    *t,
                    old(self)@.slots,
                    captures_of(rule.pattern.source(), line@).unwrap(),
                ),
                ..old(self)@
            }),
    {
        let ghost cmap = captures_of(rule.pattern.source(), line@).unwrap();
        let ghost s0 = self@.slots;
        let mut i: usize = 0;
        while i < self.slots.len()
            invariant
                self.inv(*t),
                i <= self.slots@.len(),
                s0.len() == self.slots@.len(),
                caps@.len() == t.values@.len(),
                cmap == captures_of(rule.pattern.source(), line@).unwrap(),
                captures_of(rule.pattern.source(), line@) is Some,
                forall|j: int|
                    0 <= j < caps@.len() ==> opt_text(#[trigger] caps@[j]) == group_of(
                        cmap,
                        t.names@[j]@,
                    ),
                forall|j: int| 0 <= j < i ==> (#[trigger] self.slots@[j])@ == apply_captures(*t, s0, cmap)[j],
                forall|j: int| i <= j < self.slots@.len() ==> (#[trigger] self.slots@[j])@ == s0[j],
                self.records@ == old(self).records@,
                self.state == old(self).state,
                self.halted == old(self).halted,
            decreases self.slots@.len() - i,
        {
            let v = &t.values[i];
            assert(opt_text(caps@[i as int]) == group_of(cmap, t.names@[i as int]@));
            match &caps[i] {
                Some(s) => {
                    let subs: Vec<Option<String>> = if has_option(v, ValueOption::List)
                        && v.subgroups.len() > 0 {
                        match find_captures(&rule.pattern, line.as_str(), &v.subgroups) {
                            Some(x) => x,
                            None => Vec::new(),
                        }
                    } else {
                        Vec::new()
                    };
                    let mut slot = copy_slot(&self.slots[i]);
                    slot.on_match(v, copy_text(s), &subs, Ghost(cmap));
                    self.slots.set(i, slot);
                },
                None => {},
            }
            i = i + 1;
        }
        assert(slot_views(self.slots@) =~= apply_captures(*t, s0, cmap));
    }

    /// Runs the rules of the current state over `line`, the `n`-th input line.
    fn process_line(&mut self, t: &Template, line: &String, n: usize) -> (r: Result<(), String>)
        requires
            old(self).inv(*t),
        ensures
            match try_rules(*t, old(self)@, line@, 0, n as int) {
                Ok(st) => r is Ok && final(self).inv(*t) && final(self)@ == st,
                Err((m, k)) => r matches Err(s) && s@ == m && k == n,
            },
    {
        let ghost st0 = self@;
        let mut k: usize = 0;
        while k < t.states[self.state].rules.len()
            invariant
                self.inv(*t),
                self.state == old(self).state,
                st0 == old(self)@,
                try_rules(*t, st0, line@, 0, n as int) == try_rules(*t, self@, line@, k as int, n as int),
            decreases t.states@[self.state as int].rules@.len() - k,
        {
            let rule = &t.states[self.state].rules[k];
            assert(rule_count(*t, self@) == t.states@[self.state as int].rules@.len());
            match find_captures(&rule.pattern, line.as_str(), &t.names) {
                None => {
                    k = k + 1;
                },
                Some(caps) => {
                    let ghost pre = self@;
                    self.apply_captures(t, rule, line, &caps);
                    self.record_op(t, rule.record_op);
                    match &rule.line_op {
                        LineAction::Error(m) => {
                            assert(try_rules(*t, pre, line@, k as int, n as int) == Err::<RunState, (Seq<char>, int)>((m@, n as int)));
                            return Err(copy_text(m));
                        },
                        LineAction::Continue => {
                            k = k + 1;
                        },
                        LineAction::Next => {
                            let ghost mid = self@;
                            self.move_to(t, rule.target);
                            assert(try_rules(*t, pre, line@, k as int, n as int) == Ok::<RunState, (Seq<char>, int)>(move_to(*t, mid, rule.target)));
                            return Ok(());
                        },
                    }
                },
            }
        }
        Ok(())
    }
}

proof fn lemma_error_stays(t: Template, lines: Seq<Seq<char>>, a: int, b: int)
    requires
        0 <= a <= b,
        run_prefix(t, lines, a) is Err,
    ensures
        run_prefix(t, lines, b) == run_prefix(t, lines, a),
    decreases b - a,
{
    if a < b {
        lemma_error_stays(t, lines, a, b - 1);
    }
}

/// Whether `r` is what `run` may return for template `t` and text `input`.
pub open spec fn run_outcome(t: Template, input: Seq<char>, r: Result<Vec<Record>, TemplateError>) -> bool {
    match run_spec(t, input) {
        Ok(recs) => r matches Ok(v) && record_views(v@) == recs,
        Err((m, n)) => r matches Err(TemplateError::TextFsmError { message, line }) && message@
            == m && line == n,
    }
}

/// Runs the template over `input`, line by line, and returns the records it
/// emits, or the error that an `Error` action raised.
pub fn run(t: &Template, input: &str) -> (r: Result<Vec<Record>, TemplateError>)
    requires
        t.wf(),
    ensures
        run_outcome(*t, input@, r),
{
    let chars = chars_of(input);
    let lines = split_lines(&chars);
    let ghost ls = lines_of(input@);
    let mut m = Machine::new(t);
    let mut i: usize = 0;
    while i < lines.len()
        invariant
            m.inv(*t),
            i <= lines@.len(),
            char_lines(lines@) == ls,
            ls == lines_of(input@),
            run_prefix(*t, ls, i as int) == Ok::<RunState, (Seq<char>, int)>(m@),
        decreases lines@.len() - i,
    {
        if !m.halted {
            let line = string_of(&lines[i]);
            assert(line@ == ls[i as int]);
            let ghost pre = m@;
            assert(run_prefix(*t, ls, i + 1) == try_rules(*t, pre, ls[i as int], 0, i + 1));
            match m.process_line(t, &line, i + 1) {
                Err(msg) => {
                    proof {
                        lemma_error_stays(*t, ls, i + 1, ls.len() as int);
                    }
                    return Err(TemplateError::TextFsmError { message: msg, line: i + 1 });
                },
                Ok(()) => {},
            }
        }
        i = i + 1;
    }
    if !m.halted {
        m.flush(t);
    }
    Ok(m.records)
}

} // verus!
